//! Track inventory of a media file: turning the probed stream descriptions
//! and the sibling subtitle files into the ordered track list, with kind-local
//! ids, labels, and the set of graphic subtitle tracks that cannot be encoded
//! as text.

use vstd::prelude::*;

use crate::text::contains_substring;
use crate::text::spec_contains_sub;
use crate::text::spec_dec;
use crate::text::spec_ends_with;
use crate::text::str_ends_with;
use crate::text::str_eq;
use crate::text::u64_to_string;

verus! {

/// The kind of a track; a subtitle track records whether it lives in a
/// sibling file rather than inside the container.
#[derive(Clone, Copy, Debug, PartialEq, Eq, Structural)]
pub enum Tracktype {
    Audio,
    Video,
    Subtitle(bool),
}

/// One track of a media file: its kind-local id, its kind, and a
/// human-readable label.
#[derive(Clone, Debug)]
pub struct Track {
    pub id: u64,
    pub kind: Tracktype,
    pub label: String,
}

/// The mathematical model of a track: the label as its character sequence.
pub struct TrackModel {
    pub id: u64,
    pub kind: Tracktype,
    pub label: Seq<char>,
}

impl View for Track {
    type V = TrackModel;

    open spec fn view(&self) -> TrackModel {
        TrackModel { id: self.id, kind: self.kind, label: self.label@ }
    }
}

/// The models of a sequence of tracks.
pub open spec fn tracks_model(s: Seq<Track>) -> Seq<TrackModel> {
    s.map_values(|t: Track| t@)
}

/// Everything the probe reports about a file: the container duration (the
/// bit pattern of the probe's binary64 seconds value), the tracks in
/// discovery order, and the ids of subtitle tracks in a graphic format.
#[derive(Clone, Debug)]
pub struct VideoMetadata {
    pub duration_bits: u64,
    pub tracks: Vec<Track>,
    pub unavailable_subs: Vec<u64>,
}

/// What one probed stream contributes: its codec type, its title and
/// language tags, and its codec name.
#[derive(Clone, Debug)]
pub struct StreamInfo {
    pub codec_type: String,
    pub title: Option<String>,
    pub language: Option<String>,
    pub codec_name: Option<String>,
}

/// The track kind a codec-type word denotes, if any.
pub open spec fn spec_stream_kind(ct: Seq<char>) -> Option<Tracktype> {
    if ct == "audio"@ {
        Some(Tracktype::Audio)
    } else if ct == "video"@ {
        Some(Tracktype::Video)
    } else if ct == "subtitle"@ {
        Some(Tracktype::Subtitle(false))
    } else {
        None
    }
}

fn stream_kind(ct: &str) -> (r: Option<Tracktype>)
    ensures
        r == spec_stream_kind(ct@),
{
    if str_eq(ct, "audio") {
        Some(Tracktype::Audio)
    } else if str_eq(ct, "video") {
        Some(Tracktype::Video)
    } else if str_eq(ct, "subtitle") {
        Some(Tracktype::Subtitle(false))
    } else {
        None
    }
}

/// True when the codec name names one of the graphic (bitmap) subtitle
/// formats, which cannot be rendered as WebVTT text.
pub open spec fn spec_is_graphic_codec(codec: Seq<char>) -> bool {
    ||| spec_contains_sub(codec, "dvbsub"@)
    ||| spec_contains_sub(codec, "dvdsub"@)
    ||| spec_contains_sub(codec, "pgs"@)
    ||| spec_contains_sub(codec, "xsub"@)
}

/// Substring test against the graphic subtitle formats.
pub fn is_graphic_codec(codec: &str) -> (r: bool)
    ensures
        r == spec_is_graphic_codec(codec@),
{
    contains_substring(codec, "dvbsub") || contains_substring(codec, "dvdsub")
        || contains_substring(codec, "pgs") || contains_substring(codec, "xsub")
}

/// The word a kind contributes to a fallback label.
pub open spec fn spec_kind_word(k: Tracktype) -> Seq<char> {
    match k {
        Tracktype::Audio => "Audio "@,
        Tracktype::Video => "Video "@,
        Tracktype::Subtitle(_) => "Subtitle "@,
    }
}

/// The label of a stream's track: the title tag if present, else the
/// language tag, else the fallback "<Kind> <id>".
pub open spec fn spec_label(s: StreamInfo, k: Tracktype, id: u64) -> Seq<char> {
    if s.title is Some {
        s.title->0@
    } else if s.language is Some {
        s.language->0@
    } else {
        spec_kind_word(k) + spec_dec(id as nat)
    }
}

fn kind_word(k: Tracktype) -> (r: &'static str)
    ensures
        r@ == spec_kind_word(k),
{
    match k {
        Tracktype::Audio => "Audio ",
        Tracktype::Video => "Video ",
        Tracktype::Subtitle(_) => "Subtitle ",
    }
}

/// Derives the label of a stream's track.
pub fn derive_label(s: &StreamInfo, k: Tracktype, id: u64) -> (r: String)
    ensures
        r@ == spec_label(*s, k, id),
{
    if let Some(t) = &s.title {
        t.clone()
    } else if let Some(l) = &s.language {
        l.clone()
    } else {
        let mut r = String::from_str(kind_word(k));
        let n = u64_to_string(id);
        r.append(n.as_str());
        r
    }
}

/// True when the file name carries one of the sidecar subtitle extensions.
pub open spec fn spec_is_subtitle_file(name: Seq<char>) -> bool {
    name.len() >= 5 && (spec_ends_with(name, ".srt"@) || spec_ends_with(name, ".vtt"@))
}

/// Extension test for sidecar subtitle files.
pub fn is_subtitle_file(name: &str) -> (r: bool)
    ensures
        r == spec_is_subtitle_file(name@),
{
    name.unicode_len() >= 5 && (str_ends_with(name, ".srt") || str_ends_with(name, ".vtt"))
}

/// What a run of probed streams builds: the tracks and the graphic subtitle
/// ids it emits, and the id counters as they stand afterwards.
pub struct ProbeModel {
    pub tracks: Seq<TrackModel>,
    pub unavailable: Seq<u64>,
    pub next_audio: u64,
    pub next_sub: u64,
}

/// The track id a stream of kind `k` receives: the video id is pinned to
/// zero, audio and subtitle ids come from their counters.
pub open spec fn spec_track_id(k: Tracktype, next_audio: u64, next_sub: u64) -> u64 {
    match k {
        Tracktype::Audio => next_audio,
        Tracktype::Video => 0,
        Tracktype::Subtitle(_) => next_sub,
    }
}

/// Builds the embedded tracks from the probed streams, in order, starting
/// from the given id counters. A subtitle stream whose codec name matches a
/// graphic format contributes its id to `unavailable` as well.
pub open spec fn spec_stream_tracks(
    streams: Seq<StreamInfo>,
    next_audio: u64,
    next_sub: u64,
) -> ProbeModel
    decreases streams.len(),
{
    if streams.len() == 0 {
        ProbeModel { tracks: Seq::empty(), unavailable: Seq::empty(), next_audio, next_sub }
    } else {
        let s = streams[0];
        match spec_stream_kind(s.codec_type@) {
            Option::None => spec_stream_tracks(streams.drop_first(), next_audio, next_sub),
            Option::Some(k) => {
                let id = spec_track_id(k, next_audio, next_sub);
                let na = if k is Audio {
                    (next_audio + 1) as u64
                } else {
                    next_audio
                };
                let ns = if k is Subtitle {
                    (next_sub + 1) as u64
                } else {
                    next_sub
                };
                let rest = spec_stream_tracks(streams.drop_first(), na, ns);
                let track = TrackModel { id, kind: k, label: spec_label(s, k, id) };
                let graphic = k is Subtitle && s.codec_name is Some && spec_is_graphic_codec(
                    s.codec_name->0@,
                );
                ProbeModel {
                    tracks: seq![track] + rest.tracks,
                    unavailable: if graphic {
                        seq![id] + rest.unavailable
                    } else {
                        rest.unavailable
                    },
                    next_audio: rest.next_audio,
                    next_sub: rest.next_sub,
                }
            },
        }
    }
}

/// The sidecar subtitle tracks for a list of sibling file names: one
/// external subtitle track per file with a subtitle extension, in order,
/// labelled with the file name, ids continuing from `next_sub`.
pub open spec fn spec_external_tracks(files: Seq<Seq<char>>, next_sub: u64) -> Seq<TrackModel>
    decreases files.len(),
{
    if files.len() == 0 {
        Seq::empty()
    } else if spec_is_subtitle_file(files[0]) {
        seq![TrackModel { id: next_sub, kind: Tracktype::Subtitle(true), label: files[0] }]
            + spec_external_tracks(files.drop_first(), (next_sub + 1) as u64)
    } else {
        spec_external_tracks(files.drop_first(), next_sub)
    }
}

/// The character sequences of a list of names.
pub open spec fn names_view(s: Seq<String>) -> Seq<Seq<char>> {
    s.map_values(|x: String| x@)
}

/// The full track list of a probe: the embedded tracks, then the sidecar
/// subtitle tracks, whose ids continue the subtitle numbering.
pub open spec fn spec_probe_tracks(streams: Seq<StreamInfo>, files: Seq<Seq<char>>) -> Seq<
    TrackModel,
> {
    let base = spec_stream_tracks(streams, 0, 0);
    base.tracks + spec_external_tracks(files, base.next_sub)
}

/// Builds the probe's track inventory: the embedded tracks of the probed
/// streams followed by one external subtitle track per sibling subtitle
/// file, and the ids of the graphic subtitle tracks.
pub fn build_video_metadata(
    streams: &Vec<StreamInfo>,
    sibling_files: &Vec<String>,
    duration_bits: u64,
) -> (m: VideoMetadata)
    requires
        streams@.len() + sibling_files@.len() < u64::MAX,
    ensures
        tracks_model(m.tracks@) == spec_probe_tracks(streams@, names_view(sibling_files@)),
        m.unavailable_subs@ == spec_stream_tracks(streams@, 0, 0).unavailable,
        m.duration_bits == duration_bits,
{
    let ghost full = spec_stream_tracks(streams@, 0, 0);
    let mut tracks: Vec<Track> = Vec::new();
    let mut unavailable_subs: Vec<u64> = Vec::new();
    let mut next_audio: u64 = 0;
    let mut next_sub: u64 = 0;
    let mut i: usize = 0;
    proof {
        assert(streams@.skip(0) =~= streams@);
        assert(tracks_model(tracks@) + full.tracks =~= full.tracks);
        assert(unavailable_subs@ + full.unavailable =~= full.unavailable);
    }
    while i < streams.len()
        invariant
            i <= streams@.len(),
            next_audio <= i,
            next_sub <= i,
            full == spec_stream_tracks(streams@, 0, 0),
            full.tracks == tracks_model(tracks@) + spec_stream_tracks(
                streams@.skip(i as int),
                next_audio,
                next_sub,
            ).tracks,
            full.unavailable == unavailable_subs@ + spec_stream_tracks(
                streams@.skip(i as int),
                next_audio,
                next_sub,
            ).unavailable,
            full.next_audio == spec_stream_tracks(
                streams@.skip(i as int),
                next_audio,
                next_sub,
            ).next_audio,
            full.next_sub == spec_stream_tracks(
                streams@.skip(i as int),
                next_audio,
                next_sub,
            ).next_sub,
        decreases streams@.len() - i,
    {
        let ghost cur = streams@.skip(i as int);
        proof {
            assert(cur[0] == streams@[i as int]);
            assert(cur.drop_first() =~= streams@.skip(i + 1));
        }
        let s = &streams[i];
        match stream_kind(s.codec_type.as_str()) {
            Option::None => {},
            Option::Some(k) => {
                let id = match k {
                    Tracktype::Audio => next_audio,
                    Tracktype::Video => 0,
                    Tracktype::Subtitle(_) => next_sub,
                };
                let label = derive_label(s, k, id);
                let ghost old_tracks = tracks@;
                let ghost old_unavail = unavailable_subs@;
                tracks.push(Track { id, kind: k, label });
                let mut graphic = false;
                if let Tracktype::Subtitle(_) = k {
                    if let Some(codec) = &s.codec_name {
                        if is_graphic_codec(codec.as_str()) {
                            graphic = true;
                            unavailable_subs.push(id);
                        }
                    }
                    next_sub = next_sub + 1;
                } else if let Tracktype::Audio = k {
                    next_audio = next_audio + 1;
                }
                proof {
                    let rest = spec_stream_tracks(streams@.skip(i + 1), next_audio, next_sub);
                    assert(tracks_model(tracks@) =~= tracks_model(old_tracks).push(
                        tracks@.last()@,
                    ));
                    assert(tracks_model(old_tracks) + (seq![tracks@.last()@] + rest.tracks)
                        =~= tracks_model(tracks@) + rest.tracks);
                    if graphic {
                        assert(old_unavail + (seq![id] + rest.unavailable) =~= unavailable_subs@
                            + rest.unavailable);
                    }
                }
            },
        }
        i = i + 1;
    }
    proof {
        assert(streams@.skip(streams@.len() as int) =~= Seq::<StreamInfo>::empty());
        assert(tracks_model(tracks@) + Seq::<TrackModel>::empty() =~= tracks_model(tracks@));
        assert(unavailable_subs@ + Seq::<u64>::empty() =~= unavailable_subs@);
        assert(tracks_model(tracks@) == full.tracks);
        assert(next_sub == full.next_sub);
    }
    let ghost base_len = tracks@.len();
    let mut j: usize = 0;
    proof {
        assert(names_view(sibling_files@).skip(0) =~= names_view(sibling_files@));
        assert(tracks_model(tracks@).skip(base_len as int) =~= Seq::<TrackModel>::empty());
        assert(Seq::<TrackModel>::empty() + spec_external_tracks(
            names_view(sibling_files@),
            next_sub,
        ) =~= spec_external_tracks(names_view(sibling_files@), next_sub));
    }
    while j < sibling_files.len()
        invariant
            j <= sibling_files@.len(),
            base_len <= tracks@.len(),
            streams@.len() + sibling_files@.len() < u64::MAX,
            next_sub <= streams@.len() + j,
            full == spec_stream_tracks(streams@, 0, 0),
            tracks_model(tracks@).take(base_len as int) == full.tracks,
            base_len == full.tracks.len(),
            spec_external_tracks(names_view(sibling_files@), full.next_sub) == tracks_model(
                tracks@,
            ).skip(base_len as int) + spec_external_tracks(
                names_view(sibling_files@).skip(j as int),
                next_sub,
            ),
        decreases sibling_files@.len() - j,
    {
        let ghost curf = names_view(sibling_files@).skip(j as int);
        proof {
            assert(curf[0] == sibling_files@[j as int]@);
            assert(curf.drop_first() =~= names_view(sibling_files@).skip(j + 1));
        }
        let name = &sibling_files[j];
        let ghost old_tracks = tracks@;
        if is_subtitle_file(name.as_str()) {
            tracks.push(Track { id: next_sub, kind: Tracktype::Subtitle(true), label: name.clone() });
            next_sub = next_sub + 1;
            proof {
                let rest = spec_external_tracks(names_view(sibling_files@).skip(j + 1), next_sub);
                assert(tracks_model(tracks@) =~= tracks_model(old_tracks).push(tracks@.last()@));
                assert(tracks_model(tracks@).take(base_len as int) =~= tracks_model(
                    old_tracks,
                ).take(base_len as int));
                assert(tracks_model(old_tracks).skip(base_len as int) + (seq![tracks@.last()@]
                    + rest) =~= tracks_model(tracks@).skip(base_len as int) + rest);
            }
        }
        j = j + 1;
    }
    proof {
        assert(names_view(sibling_files@).skip(sibling_files@.len() as int) =~= Seq::<
            Seq<char>,
        >::empty());
        assert(tracks_model(tracks@).skip(base_len as int) + Seq::<TrackModel>::empty()
            =~= tracks_model(tracks@).skip(base_len as int));
        assert(tracks_model(tracks@) =~= tracks_model(tracks@).take(base_len as int)
            + tracks_model(tracks@).skip(base_len as int));
        assert(tracks_model(tracks@) == spec_probe_tracks(streams@, names_view(sibling_files@)));
    }
    VideoMetadata { duration_bits, tracks, unavailable_subs }
}

/// True when some subtitle track in the list carries the given id.
pub open spec fn has_subtitle_track(ts: Seq<TrackModel>, id: u64) -> bool {
    exists|i: int| 0 <= i < ts.len() && (#[trigger] ts[i]).kind is Subtitle && ts[i].id == id
}

/// The ids of the audio tracks, in order of appearance.
pub open spec fn audio_ids(ts: Seq<TrackModel>) -> Seq<u64> {
    ts.filter(|t: TrackModel| t.kind is Audio).map_values(|t: TrackModel| t.id)
}

/// The ids of the subtitle tracks, in order of appearance.
pub open spec fn subtitle_ids(ts: Seq<TrackModel>) -> Seq<u64> {
    ts.filter(|t: TrackModel| t.kind is Subtitle).map_values(|t: TrackModel| t.id)
}

proof fn lemma_ids_empty()
    ensures
        audio_ids(Seq::<TrackModel>::empty()) == Seq::<u64>::empty(),
        subtitle_ids(Seq::<TrackModel>::empty()) == Seq::<u64>::empty(),
{
    reveal_with_fuel(Seq::filter, 1);
    let f = |t: TrackModel| t.id;
    assert(Seq::<TrackModel>::empty().map_values(f) =~= Seq::<u64>::empty());
}

proof fn lemma_ids_add(a: Seq<TrackModel>, b: Seq<TrackModel>)
    ensures
        audio_ids(a + b) == audio_ids(a) + audio_ids(b),
        subtitle_ids(a + b) == subtitle_ids(a) + subtitle_ids(b),
{
    let pa = |t: TrackModel| t.kind is Audio;
    let ps = |t: TrackModel| t.kind is Subtitle;
    let f = |t: TrackModel| t.id;
    Seq::filter_distributes_over_add(a, b, pa);
    Seq::filter_distributes_over_add(a, b, ps);
    assert((a.filter(pa) + b.filter(pa)).map_values(f) =~= a.filter(pa).map_values(f) + b.filter(
        pa,
    ).map_values(f));
    assert((a.filter(ps) + b.filter(ps)).map_values(f) =~= a.filter(ps).map_values(f) + b.filter(
        ps,
    ).map_values(f));
}

proof fn lemma_ids_singleton(t: TrackModel)
    ensures
        audio_ids(seq![t]) == if t.kind is Audio {
            seq![t.id]
        } else {
            Seq::<u64>::empty()
        },
        subtitle_ids(seq![t]) == if t.kind is Subtitle {
            seq![t.id]
        } else {
            Seq::<u64>::empty()
        },
{
    let pa = |t: TrackModel| t.kind is Audio;
    let ps = |t: TrackModel| t.kind is Subtitle;
    let f = |t: TrackModel| t.id;
    reveal_with_fuel(Seq::filter, 2);
    assert(seq![t].drop_last() =~= Seq::<TrackModel>::empty());
    assert(seq![t].len() == 1);
    assert(seq![t].last() == t);
    assert(seq![t].drop_last().filter(pa) == Seq::<TrackModel>::empty().filter(pa));
    assert(seq![t].drop_last().filter(ps) == Seq::<TrackModel>::empty().filter(ps));
    assert(Seq::<TrackModel>::empty().filter(pa) == Seq::<TrackModel>::empty());
    assert(Seq::<TrackModel>::empty().filter(ps) == Seq::<TrackModel>::empty());
    assert(seq![t].filter(pa) == if pa(t) {
        Seq::<TrackModel>::empty().push(t)
    } else {
        Seq::<TrackModel>::empty()
    });
    assert(seq![t].filter(ps) == if ps(t) {
        Seq::<TrackModel>::empty().push(t)
    } else {
        Seq::<TrackModel>::empty()
    });
    assert(Seq::<TrackModel>::empty().push(t) =~= seq![t]);
    assert(seq![t].map_values(f) =~= seq![t.id]);
    assert(Seq::<TrackModel>::empty().map_values(f) =~= Seq::<u64>::empty());
}

/// How a run of probed streams numbers its tracks: the audio ids it emits
/// are exactly the counter values from `na` on, in order, and likewise the
/// subtitle ids from `ns`; the graphic subtitle ids are strictly increasing
/// and lie among the subtitle ids.
pub proof fn lemma_stream_tracks_ids(streams: Seq<StreamInfo>, na: u64, ns: u64)
    requires
        na + streams.len() <= u64::MAX,
        ns + streams.len() <= u64::MAX,
    ensures
        ({
            let m = spec_stream_tracks(streams, na, ns);
            &&& na <= m.next_audio <= na + streams.len()
            &&& ns <= m.next_sub <= ns + streams.len()
            &&& audio_ids(m.tracks) == Seq::new(
                (m.next_audio - na) as nat,
                |i: int| (na + i) as u64,
            )
            &&& subtitle_ids(m.tracks) == Seq::new(
                (m.next_sub - ns) as nat,
                |i: int| (ns + i) as u64,
            )
            &&& forall|i: int|
                0 <= i < m.unavailable.len() ==> ns <= #[trigger] m.unavailable[i] < m.next_sub
            &&& forall|i: int, j: int|
                0 <= i < j < m.unavailable.len() ==> m.unavailable[i] < m.unavailable[j]
            &&& forall|i: int|
                0 <= i < m.tracks.len() && (#[trigger] m.tracks[i]).kind is Subtitle ==> ns
                    <= m.tracks[i].id < m.next_sub
            &&& forall|i: int, j: int|
                0 <= i < j < m.tracks.len() && (#[trigger] m.tracks[i]).kind is Subtitle && (
                #[trigger] m.tracks[j]).kind is Subtitle ==> m.tracks[i].id < m.tracks[j].id
            &&& forall|k: int|
                0 <= k < m.unavailable.len() ==> has_subtitle_track(
                    m.tracks,
                    #[trigger] m.unavailable[k],
                )
        }),
    decreases streams.len(),
{
    let m = spec_stream_tracks(streams, na, ns);
    if streams.len() == 0 {
        lemma_ids_empty();
        assert(audio_ids(m.tracks) =~= Seq::new(0, |i: int| (na + i) as u64));
        assert(subtitle_ids(m.tracks) =~= Seq::new(0, |i: int| (ns + i) as u64));
    } else {
        let s = streams[0];
        match spec_stream_kind(s.codec_type@) {
            Option::None => {
                lemma_stream_tracks_ids(streams.drop_first(), na, ns);
                assert(m == spec_stream_tracks(streams.drop_first(), na, ns));
            },
            Option::Some(k) => {
                let id = spec_track_id(k, na, ns);
                let na2 = if k is Audio {
                    (na + 1) as u64
                } else {
                    na
                };
                let ns2 = if k is Subtitle {
                    (ns + 1) as u64
                } else {
                    ns
                };
                lemma_stream_tracks_ids(streams.drop_first(), na2, ns2);
                let rest = spec_stream_tracks(streams.drop_first(), na2, ns2);
                let track = TrackModel { id, kind: k, label: spec_label(s, k, id) };
                lemma_ids_singleton(track);
                lemma_ids_add(seq![track], rest.tracks);
                let gra = k is Subtitle && s.codec_name is Some && spec_is_graphic_codec(
                    s.codec_name->0@,
                );
                assert(m.tracks[0] == track);
                assert(forall|i: int|
                    1 <= i < m.tracks.len() ==> #[trigger] m.tracks[i] == rest.tracks[i - 1]);
                if gra {
                    assert(m.unavailable[0] == id);
                    assert(forall|i: int|
                        1 <= i < m.unavailable.len() ==> #[trigger] m.unavailable[i]
                            == rest.unavailable[i - 1]);
                }
                assert forall|kk: int| 0 <= kk < m.unavailable.len() implies has_subtitle_track(
                    m.tracks,
                    #[trigger] m.unavailable[kk],
                ) by {
                    if gra && kk == 0 {
                        assert(m.tracks[0].kind is Subtitle && m.tracks[0].id == m.unavailable[0]);
                    } else {
                        let kk2 = if gra {
                            kk - 1
                        } else {
                            kk
                        };
                        assert(0 <= kk2 < rest.unavailable.len());
                        assert(rest.unavailable[kk2] == m.unavailable[kk]);
                        assert(has_subtitle_track(rest.tracks, rest.unavailable[kk2]));
                        let i2 = choose|i: int|
                            0 <= i < rest.tracks.len() && (#[trigger] rest.tracks[i]).kind
                                is Subtitle && rest.tracks[i].id == rest.unavailable[kk2];
                        assert(m.tracks[i2 + 1].kind is Subtitle && m.tracks[i2 + 1].id
                            == m.unavailable[kk]);
                    }
                }
                if k is Audio {
                    assert(audio_ids(m.tracks) =~= Seq::new(
                        (m.next_audio - na) as nat,
                        |i: int| (na + i) as u64,
                    ));
                    assert(subtitle_ids(m.tracks) =~= Seq::new(
                        (m.next_sub - ns) as nat,
                        |i: int| (ns + i) as u64,
                    ));
                } else if k is Subtitle {
                    assert(audio_ids(m.tracks) =~= Seq::new(
                        (m.next_audio - na) as nat,
                        |i: int| (na + i) as u64,
                    ));
                    assert(subtitle_ids(m.tracks) =~= Seq::new(
                        (m.next_sub - ns) as nat,
                        |i: int| (ns + i) as u64,
                    ));
                } else {
                    assert(audio_ids(m.tracks) =~= Seq::new(
                        (m.next_audio - na) as nat,
                        |i: int| (na + i) as u64,
                    ));
                    assert(subtitle_ids(m.tracks) =~= Seq::new(
                        (m.next_sub - ns) as nat,
                        |i: int| (ns + i) as u64,
                    ));
                }
            },
        }
    }
}

/// How the sidecar files number their tracks: every track is an external
/// subtitle, and the ids are exactly the counter values from `ns` on.
pub proof fn lemma_external_tracks_ids(files: Seq<Seq<char>>, ns: u64)
    requires
        ns + files.len() <= u64::MAX,
    ensures
        ({
            let ts = spec_external_tracks(files, ns);
            &&& ts.len() <= files.len()
            &&& audio_ids(ts) == Seq::<u64>::empty()
            &&& subtitle_ids(ts) == Seq::new(ts.len(), |i: int| (ns + i) as u64)
            &&& forall|i: int|
                0 <= i < ts.len() ==> (#[trigger] ts[i]).kind == Tracktype::Subtitle(true) && ns
                    <= ts[i].id < ns + ts.len()
            &&& forall|i: int, j: int| 0 <= i < j < ts.len() ==> ts[i].id < ts[j].id
        }),
    decreases files.len(),
{
    let ts = spec_external_tracks(files, ns);
    if files.len() == 0 {
        lemma_ids_empty();
        assert(audio_ids(ts) =~= Seq::<u64>::empty());
        assert(subtitle_ids(ts) =~= Seq::new(0, |i: int| (ns + i) as u64));
    } else if spec_is_subtitle_file(files[0]) {
        let track = TrackModel { id: ns, kind: Tracktype::Subtitle(true), label: files[0] };
        lemma_external_tracks_ids(files.drop_first(), (ns + 1) as u64);
        lemma_ids_singleton(track);
        lemma_ids_add(seq![track], spec_external_tracks(files.drop_first(), (ns + 1) as u64));
        assert(audio_ids(ts) =~= Seq::<u64>::empty());
        assert(subtitle_ids(ts) =~= Seq::new(ts.len(), |i: int| (ns + i) as u64));
    } else {
        lemma_external_tracks_ids(files.drop_first(), ns);
    }
}

/// The number of recognized subtitle streams among the first `upto` probed
/// streams: the kind-local id the next subtitle stream would receive.
pub open spec fn count_subtitle_streams(streams: Seq<StreamInfo>, upto: int) -> nat
    decreases streams.len(),
{
    if upto <= 0 || streams.len() == 0 {
        0
    } else {
        (if spec_stream_kind(streams[0].codec_type@) matches Some(Tracktype::Subtitle(_)) {
            1nat
        } else {
            0nat
        }) + count_subtitle_streams(streams.drop_first(), upto - 1)
    }
}

proof fn lemma_count_subtitle_streams_le(streams: Seq<StreamInfo>, upto: int)
    ensures
        count_subtitle_streams(streams, upto) <= (if upto <= 0 {
            0int
        } else {
            upto
        }),
    decreases streams.len(),
{
    if upto > 0 && streams.len() != 0 {
        lemma_count_subtitle_streams_le(streams.drop_first(), upto - 1);
    }
}

/// A probed stream that is a graphic subtitle yields a subtitle track that
/// is still advertised, under its kind-local id, and that id is recorded
/// among the unavailable ids.
pub proof fn lemma_graphic_stream_marked(streams: Seq<StreamInfo>, na: u64, ns: u64, k: int)
    requires
        na + streams.len() <= u64::MAX,
        ns + streams.len() <= u64::MAX,
        0 <= k < streams.len(),
        spec_stream_kind(streams[k].codec_type@) == Some(Tracktype::Subtitle(false)),
        streams[k].codec_name is Some,
        spec_is_graphic_codec(streams[k].codec_name->0@),
    ensures
        ({
            let m = spec_stream_tracks(streams, na, ns);
            let id = (ns + count_subtitle_streams(streams, k)) as u64;
            &&& m.unavailable.contains(id)
            &&& exists|i: int|
                0 <= i < m.tracks.len() && (#[trigger] m.tracks[i]).kind == Tracktype::Subtitle(
                    false,
                ) && m.tracks[i].id == id
        }),
    decreases streams.len(),
{
    let m = spec_stream_tracks(streams, na, ns);
    let id = (ns + count_subtitle_streams(streams, k)) as u64;
    lemma_count_subtitle_streams_le(streams, k);
    let s = streams[0];
    match spec_stream_kind(s.codec_type@) {
        Option::None => {
            assert(k > 0);
            assert(streams.drop_first()[k - 1] == streams[k]);
            lemma_graphic_stream_marked(streams.drop_first(), na, ns, k - 1);
            assert(m == spec_stream_tracks(streams.drop_first(), na, ns));
        },
        Option::Some(kind) => {
            let hid = spec_track_id(kind, na, ns);
            let na2 = if kind is Audio {
                (na + 1) as u64
            } else {
                na
            };
            let ns2 = if kind is Subtitle {
                (ns + 1) as u64
            } else {
                ns
            };
            let rest = spec_stream_tracks(streams.drop_first(), na2, ns2);
            let gra = kind is Subtitle && s.codec_name is Some && spec_is_graphic_codec(
                s.codec_name->0@,
            );
            if k == 0 {
                assert(count_subtitle_streams(streams, 0) == 0);
                assert(m.unavailable[0] == id);
                assert(m.unavailable.contains(id));
                assert(m.tracks[0].kind == Tracktype::Subtitle(false) && m.tracks[0].id == id);
            } else {
                assert(streams.drop_first()[k - 1] == streams[k]);
                lemma_graphic_stream_marked(streams.drop_first(), na2, ns2, k - 1);
                lemma_count_subtitle_streams_le(streams.drop_first(), k - 1);
                let id2 = (ns2 + count_subtitle_streams(streams.drop_first(), k - 1)) as u64;
                assert(id == id2);
                let w = choose|i: int|
                    0 <= i < rest.unavailable.len() && rest.unavailable[i] == id2;
                if gra {
                    assert(m.unavailable[w + 1] == id);
                } else {
                    assert(m.unavailable[w] == id);
                }
                assert(m.unavailable.contains(id));
                assert(exists|i: int|
                    0 <= i < rest.tracks.len() && (#[trigger] rest.tracks[i]).kind
                        == Tracktype::Subtitle(false) && rest.tracks[i].id == id2);
                let t = choose|i: int|
                    0 <= i < rest.tracks.len() && (#[trigger] rest.tracks[i]).kind
                        == Tracktype::Subtitle(false) && rest.tracks[i].id == id2;
                assert(m.tracks[t + 1] == rest.tracks[t]);
                assert(m.tracks[t + 1].kind == Tracktype::Subtitle(false) && m.tracks[t + 1].id
                    == id);
            }
        },
    }
}

/// Law: in a probe's track inventory the audio ids form the contiguous
/// prefix 0, 1, ... in order of appearance, and so do the subtitle ids,
/// counting embedded and external subtitle tracks together.
pub proof fn lemma_probe_ids_contiguous(streams: Seq<StreamInfo>, files: Seq<Seq<char>>)
    requires
        streams.len() + files.len() < u64::MAX,
    ensures
        ({
            let ts = spec_probe_tracks(streams, files);
            &&& audio_ids(ts) == Seq::new(audio_ids(ts).len(), |i: int| i as u64)
            &&& subtitle_ids(ts) == Seq::new(subtitle_ids(ts).len(), |i: int| i as u64)
        }),
{
    let base = spec_stream_tracks(streams, 0, 0);
    let ext = spec_external_tracks(files, base.next_sub);
    lemma_stream_tracks_ids(streams, 0, 0);
    lemma_external_tracks_ids(files, base.next_sub);
    lemma_ids_add(base.tracks, ext);
    let ts = spec_probe_tracks(streams, files);
    assert(audio_ids(base.tracks) + Seq::<u64>::empty() =~= audio_ids(base.tracks));
    assert(audio_ids(ts) =~= Seq::new(audio_ids(ts).len(), |i: int| i as u64));
    assert(subtitle_ids(ts) =~= Seq::new(subtitle_ids(ts).len(), |i: int| i as u64));
}

} // verus!
