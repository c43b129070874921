//! The binary chunk envelope: one video buffer, then one entry per audio
//! track and one per subtitle track, each length-prefixed, all little-endian.
//!
//! Layout:
//!   u32  audio track count
//!   u32  subtitle track count
//!   u64  video data length, then the video bytes
//!   per audio track:    u64 id, u64 length, then the bytes
//!   per subtitle track: u64 id, u64 length, then the UTF-8 WebVTT bytes

use vstd::prelude::*;

use vstd::bytes::lemma_auto_spec_u32_to_from_le_bytes;
use vstd::bytes::lemma_auto_spec_u64_to_from_le_bytes;
use vstd::bytes::spec_u32_from_le_bytes;
use vstd::bytes::spec_u32_to_le_bytes;
use vstd::bytes::spec_u64_from_le_bytes;
use vstd::bytes::spec_u64_to_le_bytes;
use vstd::bytes::u32_from_le_bytes;
use vstd::bytes::u32_to_le_bytes;
use vstd::bytes::u64_from_le_bytes;
use vstd::bytes::u64_to_le_bytes;
use vstd::slice::slice_subrange;
use vstd::slice::slice_to_vec;
use vstd::utf8::encode_utf8;

verus! {

/// One encoded audio track: its kind-local id and its fragmented MP4 bytes.
#[derive(Debug)]
pub struct AudioData {
    pub id: u64,
    pub data: Vec<u8>,
}

/// One encoded subtitle track: its kind-local id and its WebVTT text.
#[derive(Debug)]
pub struct SubtitleData {
    pub id: u64,
    pub data: String,
}

/// The in-memory chunk: video bytes plus the per-track audio and subtitle
/// buffers, in probe order.
#[derive(Debug)]
pub struct VideoResponse {
    pub video_data: Vec<u8>,
    pub audio_data: Vec<AudioData>,
    pub subtitle_data: Vec<SubtitleData>,
}

/// The bytes of one length-prefixed track entry.
pub open spec fn entry_bytes(id: u64, data: Seq<u8>) -> Seq<u8> {
    spec_u64_to_le_bytes(id) + spec_u64_to_le_bytes(data.len() as u64) + data
}

/// The bytes of a run of track entries, in order.
pub open spec fn entries_bytes(es: Seq<(u64, Seq<u8>)>) -> Seq<u8>
    decreases es.len(),
{
    if es.len() == 0 {
        Seq::empty()
    } else {
        entry_bytes(es[0].0, es[0].1) + entries_bytes(es.drop_first())
    }
}

/// The whole envelope, over the payloads of its tracks.
pub open spec fn envelope_bytes_of(
    video: Seq<u8>,
    audio: Seq<(u64, Seq<u8>)>,
    subs: Seq<(u64, Seq<u8>)>,
) -> Seq<u8> {
    spec_u32_to_le_bytes(audio.len() as u32) + spec_u32_to_le_bytes(subs.len() as u32)
        + spec_u64_to_le_bytes(video.len() as u64) + video + entries_bytes(audio) + entries_bytes(
        subs,
    )
}

/// The id/payload pairs of a sequence of audio tracks.
pub open spec fn audio_view(s: Seq<AudioData>) -> Seq<(u64, Seq<u8>)> {
    s.map_values(|a: AudioData| (a.id, a.data@))
}

/// The id/payload pairs of a sequence of subtitle tracks; the payload is the
/// UTF-8 encoding of the WebVTT text.
pub open spec fn subtitle_view(s: Seq<SubtitleData>) -> Seq<(u64, Seq<u8>)> {
    s.map_values(|t: SubtitleData| (t.id, encode_utf8(t.data@)))
}

impl VideoResponse {
    /// The track counts fit the 32-bit count fields of the envelope.
    pub open spec fn wf(self) -> bool {
        self.audio_data@.len() <= u32::MAX && self.subtitle_data@.len() <= u32::MAX
    }

    /// The serialized form of this chunk.
    pub open spec fn spec_bytes(self) -> Seq<u8> {
        envelope_bytes_of(
            self.video_data@,
            audio_view(self.audio_data@),
            subtitle_view(self.subtitle_data@),
        )
    }

    /// Serializes the chunk into the envelope, byte-exactly.
    pub fn as_bytes(&self) -> (r: Vec<u8>)
        requires
            self.wf(),
        ensures
            r@ == self.spec_bytes(),
    {
        let mut out: Vec<u8> = Vec::new();
        append_u32(&mut out, self.audio_data.len() as u32);
        append_u32(&mut out, self.subtitle_data.len() as u32);
        append_u64(&mut out, self.video_data.len() as u64);
        append_bytes(&mut out, self.video_data.as_slice());
        let ghost prefix = out@;
        let mut i: usize = 0;
        while i < self.audio_data.len()
            invariant
                i <= self.audio_data@.len(),
                out@ == prefix + entries_bytes(audio_view(self.audio_data@).take(i as int)),
            decreases self.audio_data@.len() - i,
        {
            let a = &self.audio_data[i];
            append_u64(&mut out, a.id);
            append_u64(&mut out, a.data.len() as u64);
            append_bytes(&mut out, a.data.as_slice());
            proof {
                let es = audio_view(self.audio_data@);
                lemma_entries_bytes_push(es.take(i as int), es[i as int]);
                assert(es.take(i + 1) =~= es.take(i as int).push(es[i as int]));
                assert(out@ =~= prefix + entries_bytes(es.take(i + 1)));
            }
            i = i + 1;
        }
        proof {
            let es = audio_view(self.audio_data@);
            assert(es.take(es.len() as int) =~= es);
        }
        let ghost prefix2 = out@;
        let mut j: usize = 0;
        while j < self.subtitle_data.len()
            invariant
                j <= self.subtitle_data@.len(),
                out@ == prefix2 + entries_bytes(subtitle_view(self.subtitle_data@).take(j as int)),
            decreases self.subtitle_data@.len() - j,
        {
            let t = &self.subtitle_data[j];
            append_u64(&mut out, t.id);
            let payload = t.data.as_str().as_bytes();
            append_u64(&mut out, payload.len() as u64);
            append_bytes(&mut out, payload);
            proof {
                let es = subtitle_view(self.subtitle_data@);
                lemma_entries_bytes_push(es.take(j as int), es[j as int]);
                assert(es.take(j + 1) =~= es.take(j as int).push(es[j as int]));
                assert(out@ =~= prefix2 + entries_bytes(es.take(j + 1)));
            }
            j = j + 1;
        }
        proof {
            let es = subtitle_view(self.subtitle_data@);
            assert(es.take(es.len() as int) =~= es);
            assert(out@ =~= self.spec_bytes());
        }
        out
    }
}

fn append_u32(out: &mut Vec<u8>, x: u32)
    ensures
        final(out)@ == old(out)@ + spec_u32_to_le_bytes(x),
{
    let mut b = u32_to_le_bytes(x);
    out.append(&mut b);
}

fn append_u64(out: &mut Vec<u8>, x: u64)
    ensures
        final(out)@ == old(out)@ + spec_u64_to_le_bytes(x),
{
    let mut b = u64_to_le_bytes(x);
    out.append(&mut b);
}

fn append_bytes(out: &mut Vec<u8>, data: &[u8])
    ensures
        final(out)@ == old(out)@ + data@,
{
    let mut b = slice_to_vec(data);
    out.append(&mut b);
}

/// Appending one entry to a run appends its bytes to the run's bytes.
proof fn lemma_entries_bytes_push(es: Seq<(u64, Seq<u8>)>, e: (u64, Seq<u8>))
    ensures
        entries_bytes(es.push(e)) == entries_bytes(es) + entry_bytes(e.0, e.1),
    decreases es.len(),
{
    if es.len() == 0 {
        assert(es.push(e)[0] == e);
        assert(es.push(e).drop_first() =~= Seq::<(u64, Seq<u8>)>::empty());
        assert(entries_bytes(es.push(e).drop_first()) == Seq::<u8>::empty());
        assert(entries_bytes(es.push(e)) == entry_bytes(e.0, e.1) + Seq::<u8>::empty());
        assert(entries_bytes(es.push(e)) =~= entries_bytes(es) + entry_bytes(e.0, e.1));
    } else {
        assert(es.push(e).drop_first() =~= es.drop_first().push(e));
        lemma_entries_bytes_push(es.drop_first(), e);
        assert(entries_bytes(es.push(e)) =~= entries_bytes(es) + entry_bytes(e.0, e.1));
    }
}

/// The result of reading `n` length-prefixed entries from the front of `b`:
/// the entries and the remaining bytes, or nothing if `b` is too short.
pub open spec fn spec_parse_entries(b: Seq<u8>, n: nat) -> Option<(Seq<(u64, Seq<u8>)>, Seq<u8>)>
    decreases n,
{
    if n == 0 {
        Some((Seq::empty(), b))
    } else if b.len() < 16 {
        None
    } else {
        let id = spec_u64_from_le_bytes(b.subrange(0, 8));
        let len = spec_u64_from_le_bytes(b.subrange(8, 16));
        if b.len() - 16 < len {
            None
        } else {
            let data = b.subrange(16, 16 + len as int);
            match spec_parse_entries(b.skip(16 + len as int), (n - 1) as nat) {
                Option::None => None,
                Option::Some(rest) => Some((seq![(id, data)] + rest.0, rest.1)),
            }
        }
    }
}

/// The result of decoding a whole envelope: the video bytes, the audio
/// entries and the subtitle entries; nothing if the bytes are not exactly one
/// envelope.
pub open spec fn spec_parse_envelope(b: Seq<u8>) -> Option<
    (Seq<u8>, Seq<(u64, Seq<u8>)>, Seq<(u64, Seq<u8>)>),
> {
    if b.len() < 16 {
        None
    } else {
        let acount = spec_u32_from_le_bytes(b.subrange(0, 4));
        let scount = spec_u32_from_le_bytes(b.subrange(4, 8));
        let vlen = spec_u64_from_le_bytes(b.subrange(8, 16));
        if b.len() - 16 < vlen {
            None
        } else {
            let video = b.subrange(16, 16 + vlen as int);
            match spec_parse_entries(b.skip(16 + vlen as int), acount as nat) {
                Option::None => None,
                Option::Some(audio) => match spec_parse_entries(audio.1, scount as nat) {
                    Option::None => None,
                    Option::Some(subs) => if subs.1.len() == 0 {
                        Some((video, audio.0, subs.0))
                    } else {
                        None
                    },
                },
            }
        }
    }
}

/// Parsed entries re-serialize to exactly the bytes they came from.
proof fn lemma_parse_entries_emit(b: Seq<u8>, n: nat)
    requires
        spec_parse_entries(b, n) is Some,
    ensures
        spec_parse_entries(b, n) matches Some(p) ==> {
            &&& p.0.len() == n
            &&& entries_bytes(p.0) + p.1 == b
            &&& forall|i: int| 0 <= i < p.0.len() ==> #[trigger] p.0[i].1.len() <= u64::MAX
        },
    decreases n,
{
    lemma_auto_spec_u64_to_from_le_bytes();
    if n == 0 {
        assert(entries_bytes(Seq::<(u64, Seq<u8>)>::empty()) + b =~= b);
    } else {
        let id = spec_u64_from_le_bytes(b.subrange(0, 8));
        let len = spec_u64_from_le_bytes(b.subrange(8, 16));
        let data = b.subrange(16, 16 + len as int);
        let tail = b.skip(16 + len as int);
        lemma_parse_entries_emit(tail, (n - 1) as nat);
        let rest = spec_parse_entries(tail, (n - 1) as nat)->Some_0;
        let es = seq![(id, data)] + rest.0;
        assert(es.drop_first() =~= rest.0);
        assert(data.len() as u64 == len);
        assert(entry_bytes(id, data) == b.subrange(0, 8) + b.subrange(8, 16) + data);
        assert(entries_bytes(es) == entry_bytes(id, data) + entries_bytes(rest.0));
        assert(entries_bytes(rest.0) + rest.1 == tail);
        assert(entries_bytes(es) + rest.1 =~= entry_bytes(id, data) + (entries_bytes(rest.0)
            + rest.1));
        assert(b =~= b.subrange(0, 8) + b.subrange(8, 16) + data + tail);
        assert(entries_bytes(es) + rest.1 =~= b);
    }
}

/// A serialized run of entries parses back to exactly those entries, leaving
/// whatever follows untouched.
proof fn lemma_entries_bytes_parse(es: Seq<(u64, Seq<u8>)>, tail: Seq<u8>)
    requires
        forall|i: int| 0 <= i < es.len() ==> #[trigger] es[i].1.len() <= u64::MAX,
    ensures
        spec_parse_entries(entries_bytes(es) + tail, es.len()) == Some((es, tail)),
    decreases es.len(),
{
    lemma_auto_spec_u64_to_from_le_bytes();
    if es.len() == 0 {
        assert(entries_bytes(es) + tail =~= tail);
        assert(Seq::<(u64, Seq<u8>)>::empty() =~= es);
    } else {
        let e = es[0];
        let rest = es.drop_first();
        let b = entries_bytes(es) + tail;
        assert(b =~= entry_bytes(e.0, e.1) + (entries_bytes(rest) + tail));
        let dlen = e.1.len() as u64;
        assert(b.subrange(0, 8) =~= spec_u64_to_le_bytes(e.0));
        assert(b.subrange(8, 16) =~= spec_u64_to_le_bytes(dlen));
        assert(spec_u64_from_le_bytes(b.subrange(0, 8)) == e.0);
        assert(spec_u64_from_le_bytes(b.subrange(8, 16)) == dlen);
        assert(b.len() - 16 >= dlen);
        assert(b.subrange(16, 16 + dlen as int) =~= e.1);
        assert(b.skip(16 + dlen as int) =~= entries_bytes(rest) + tail);
        lemma_entries_bytes_parse(rest, tail);
        assert(seq![(e.0, e.1)] + rest =~= es);
    }
}

/// Decoding an envelope and re-emitting what was decoded gives back the very
/// same bytes: the client's parse-then-serialize round trip is the identity.
pub proof fn lemma_parse_then_emit(b: Seq<u8>)
    requires
        spec_parse_envelope(b) is Some,
    ensures
        spec_parse_envelope(b) matches Some(p) ==> envelope_bytes_of(p.0, p.1, p.2) == b,
{
    lemma_auto_spec_u32_to_from_le_bytes();
    lemma_auto_spec_u64_to_from_le_bytes();
    let acount = spec_u32_from_le_bytes(b.subrange(0, 4));
    let scount = spec_u32_from_le_bytes(b.subrange(4, 8));
    let vlen = spec_u64_from_le_bytes(b.subrange(8, 16));
    let video = b.subrange(16, 16 + vlen as int);
    let mid = b.skip(16 + vlen as int);
    lemma_parse_entries_emit(mid, acount as nat);
    let audio = spec_parse_entries(mid, acount as nat)->Some_0;
    lemma_parse_entries_emit(audio.1, scount as nat);
    let subs = spec_parse_entries(audio.1, scount as nat)->Some_0;
    assert(video.len() as u64 == vlen);
    assert(audio.0.len() as u32 == acount);
    assert(subs.0.len() as u32 == scount);
    assert(entries_bytes(audio.0) + audio.1 == mid);
    assert(entries_bytes(subs.0) + subs.1 == audio.1);
    assert(subs.1.len() == 0);
    assert(entries_bytes(subs.0) + subs.1 =~= entries_bytes(subs.0));
    assert(audio.1 =~= entries_bytes(subs.0));
    assert(b =~= b.subrange(0, 4) + b.subrange(4, 8) + b.subrange(8, 16) + video + mid);
    assert(mid =~= entries_bytes(audio.0) + entries_bytes(subs.0));
    assert(envelope_bytes_of(video, audio.0, subs.0) =~= b);
}

/// A serialized envelope decodes to exactly the payloads it was built from.
pub proof fn lemma_emit_then_parse(
    video: Seq<u8>,
    audio: Seq<(u64, Seq<u8>)>,
    subs: Seq<(u64, Seq<u8>)>,
)
    requires
        audio.len() <= u32::MAX,
        subs.len() <= u32::MAX,
        video.len() <= u64::MAX,
        forall|i: int| 0 <= i < audio.len() ==> #[trigger] audio[i].1.len() <= u64::MAX,
        forall|i: int| 0 <= i < subs.len() ==> #[trigger] subs[i].1.len() <= u64::MAX,
    ensures
        spec_parse_envelope(envelope_bytes_of(video, audio, subs)) == Some((video, audio, subs)),
{
    lemma_auto_spec_u32_to_from_le_bytes();
    lemma_auto_spec_u64_to_from_le_bytes();
    let b = envelope_bytes_of(video, audio, subs);
    let acount = audio.len() as u32;
    let scount = subs.len() as u32;
    let vlen = video.len() as u64;
    assert(b.subrange(0, 4) =~= spec_u32_to_le_bytes(acount));
    assert(b.subrange(4, 8) =~= spec_u32_to_le_bytes(scount));
    assert(b.subrange(8, 16) =~= spec_u64_to_le_bytes(vlen));
    assert(b.len() - 16 >= vlen) by {
        lemma_entries_bytes_len(audio);
        lemma_entries_bytes_len(subs);
    }
    assert(b.subrange(16, 16 + vlen as int) =~= video);
    assert(b.skip(16 + vlen as int) =~= entries_bytes(audio) + (entries_bytes(subs)
        + Seq::<u8>::empty()));
    lemma_entries_bytes_parse(audio, entries_bytes(subs) + Seq::<u8>::empty());
    lemma_entries_bytes_parse(subs, Seq::<u8>::empty());
}

/// One parsed track entry: its id and its raw payload bytes.
#[derive(Debug)]
pub struct ParsedTrack {
    pub id: u64,
    pub data: Vec<u8>,
}

/// An envelope as a client decodes it: the video bytes plus the raw audio and
/// subtitle entries.
#[derive(Debug)]
pub struct ParsedEnvelope {
    pub video_data: Vec<u8>,
    pub audio_tracks: Vec<ParsedTrack>,
    pub subtitle_tracks: Vec<ParsedTrack>,
}

/// The id/payload pairs of a sequence of parsed tracks.
pub open spec fn tracks_view(s: Seq<ParsedTrack>) -> Seq<(u64, Seq<u8>)> {
    s.map_values(|t: ParsedTrack| (t.id, t.data@))
}

impl ParsedEnvelope {
    /// The track counts fit the 32-bit count fields of the envelope.
    pub open spec fn wf(self) -> bool {
        self.audio_tracks@.len() <= u32::MAX && self.subtitle_tracks@.len() <= u32::MAX
    }

    /// The serialized form of this parsed envelope.
    pub open spec fn spec_bytes(self) -> Seq<u8> {
        envelope_bytes_of(
            self.video_data@,
            tracks_view(self.audio_tracks@),
            tracks_view(self.subtitle_tracks@),
        )
    }

    /// Re-serializes the parsed envelope, byte-exactly.
    pub fn emit(&self) -> (r: Vec<u8>)
        requires
            self.wf(),
        ensures
            r@ == self.spec_bytes(),
    {
        let mut out: Vec<u8> = Vec::new();
        append_u32(&mut out, self.audio_tracks.len() as u32);
        append_u32(&mut out, self.subtitle_tracks.len() as u32);
        append_u64(&mut out, self.video_data.len() as u64);
        append_bytes(&mut out, self.video_data.as_slice());
        append_tracks(&mut out, &self.audio_tracks);
        append_tracks(&mut out, &self.subtitle_tracks);
        proof {
            assert(out@ =~= self.spec_bytes());
        }
        out
    }
}

fn append_tracks(out: &mut Vec<u8>, tracks: &Vec<ParsedTrack>)
    ensures
        final(out)@ == old(out)@ + entries_bytes(tracks_view(tracks@)),
{
    let ghost prefix = out@;
    let mut i: usize = 0;
    while i < tracks.len()
        invariant
            i <= tracks@.len(),
            out@ == prefix + entries_bytes(tracks_view(tracks@).take(i as int)),
        decreases tracks@.len() - i,
    {
        let t = &tracks[i];
        append_u64(out, t.id);
        append_u64(out, t.data.len() as u64);
        append_bytes(out, t.data.as_slice());
        proof {
            let es = tracks_view(tracks@);
            lemma_entries_bytes_push(es.take(i as int), es[i as int]);
            assert(es.take(i + 1) =~= es.take(i as int).push(es[i as int]));
            assert(out@ =~= prefix + entries_bytes(es.take(i + 1)));
        }
        i = i + 1;
    }
    proof {
        let es = tracks_view(tracks@);
        assert(es.take(es.len() as int) =~= es);
    }
}

/// Composes entries already read with the parse of the remaining bytes.
spec fn spec_parse_compose(
    done: Seq<(u64, Seq<u8>)>,
    b: Seq<u8>,
    rem: nat,
) -> Option<(Seq<(u64, Seq<u8>)>, Seq<u8>)> {
    match spec_parse_entries(b, rem) {
        Option::None => None,
        Option::Some(p) => Some((done + p.0, p.1)),
    }
}

fn parse_tracks(bytes: &[u8], start: usize, n: u32) -> (r: Option<(Vec<ParsedTrack>, usize)>)
    requires
        start <= bytes@.len(),
    ensures
        match r {
            Option::Some(p) => {
                &&& p.1 <= bytes@.len()
                &&& p.0@.len() == n as nat
                &&& spec_parse_entries(bytes@.skip(start as int), n as nat) == Some(
                    (tracks_view(p.0@), bytes@.skip(p.1 as int)),
                )
            },
            Option::None => spec_parse_entries(bytes@.skip(start as int), n as nat) is None,
        },
{
    let mut ts: Vec<ParsedTrack> = Vec::new();
    let mut pos: usize = start;
    let mut i: u32 = 0;
    while i < n
        invariant
            start <= pos <= bytes@.len(),
            i <= n,
            ts@.len() == i as nat,
            spec_parse_entries(bytes@.skip(start as int), n as nat) == spec_parse_compose(
                tracks_view(ts@),
                bytes@.skip(pos as int),
                (n - i) as nat,
            ),
        decreases n - i,
    {
        let ghost cur = bytes@.skip(pos as int);
        let ghost done = tracks_view(ts@);
        if bytes.len() - pos < 16 {
            return None;
        }
        let id = u64_from_le_bytes(slice_subrange(bytes, pos, pos + 8));
        let len = u64_from_le_bytes(slice_subrange(bytes, pos + 8, pos + 16));
        proof {
            assert(bytes@.subrange(pos as int, pos + 8) =~= cur.subrange(0, 8));
            assert(bytes@.subrange(pos + 8, pos + 16) =~= cur.subrange(8, 16));
        }
        let avail = bytes.len() - (pos + 16);
        if len > avail as u64 {
            return None;
        }
        let dlen = len as usize;
        let data = slice_to_vec(slice_subrange(bytes, pos + 16, pos + 16 + dlen));
        proof {
            assert(bytes@.subrange(pos + 16, pos + 16 + dlen) =~= cur.subrange(
                16,
                16 + len as int,
            ));
        }
        ts.push(ParsedTrack { id, data });
        let new_pos = pos + 16 + dlen;
        proof {
            assert(bytes@.skip(new_pos as int) =~= cur.skip(16 + len as int));
            assert(tracks_view(ts@) =~= done.push((id, cur.subrange(16, 16 + len as int))));
            let rem = (n - i) as nat;
            let head = (id, cur.subrange(16, 16 + len as int));
            match spec_parse_entries(cur.skip(16 + len as int), (rem - 1) as nat) {
                Option::None => {},
                Option::Some(q) => {
                    assert(done + (seq![head] + q.0) =~= done.push(head) + q.0);
                },
            }
        }
        pos = new_pos;
        i = i + 1;
    }
    proof {
        assert(tracks_view(ts@) + Seq::<(u64, Seq<u8>)>::empty() =~= tracks_view(ts@));
    }
    Some((ts, pos))
}

/// Decodes one envelope. Returns the parsed envelope exactly when the bytes
/// are one well-formed envelope with nothing trailing, and nothing otherwise.
pub fn parse_envelope(bytes: &[u8]) -> (r: Option<ParsedEnvelope>)
    ensures
        match r {
            Option::Some(e) => {
                &&& spec_parse_envelope(bytes@) == Some(
                    (
                        e.video_data@,
                        tracks_view(e.audio_tracks@),
                        tracks_view(e.subtitle_tracks@),
                    ),
                )
                &&& e.wf()
            },
            Option::None => spec_parse_envelope(bytes@) is None,
        },
{
    if bytes.len() < 16 {
        return None;
    }
    let acount = u32_from_le_bytes(slice_subrange(bytes, 0, 4));
    let scount = u32_from_le_bytes(slice_subrange(bytes, 4, 8));
    let vlen = u64_from_le_bytes(slice_subrange(bytes, 8, 16));
    let avail = bytes.len() - 16;
    if vlen > avail as u64 {
        return None;
    }
    let vl = vlen as usize;
    let video_data = slice_to_vec(slice_subrange(bytes, 16, 16 + vl));
    let audio = parse_tracks(bytes, 16 + vl, acount);
    match audio {
        Option::None => None,
        Option::Some((audio_tracks, mid)) => {
            let subs = parse_tracks(bytes, mid, scount);
            match subs {
                Option::None => None,
                Option::Some((subtitle_tracks, end)) => {
                    if end != bytes.len() {
                        proof {
                            assert(bytes@.skip(end as int).len() != 0);
                        }
                        None
                    } else {
                        proof {
                            assert(bytes@.skip(end as int).len() == 0);
                        }
                        Some(ParsedEnvelope { video_data, audio_tracks, subtitle_tracks })
                    }
                },
            }
        },
    }
}

/// The total length of a run of entries: sixteen header bytes per entry plus
/// its payload.
pub open spec fn entries_total_len(es: Seq<(u64, Seq<u8>)>) -> nat
    decreases es.len(),
{
    if es.len() == 0 {
        0
    } else {
        16 + es[0].1.len() + entries_total_len(es.drop_first())
    }
}

proof fn lemma_entries_bytes_len(es: Seq<(u64, Seq<u8>)>)
    ensures
        entries_bytes(es).len() == entries_total_len(es),
    decreases es.len(),
{
    lemma_auto_spec_u64_to_from_le_bytes();
    if es.len() > 0 {
        lemma_entries_bytes_len(es.drop_first());
    }
}

/// The envelope's exact length: a sixteen-byte header, the video bytes, and
/// sixteen header bytes plus the payload for each audio and subtitle entry.
pub proof fn lemma_envelope_len(
    video: Seq<u8>,
    audio: Seq<(u64, Seq<u8>)>,
    subs: Seq<(u64, Seq<u8>)>,
)
    ensures
        envelope_bytes_of(video, audio, subs).len() == 16 + video.len() + entries_total_len(audio)
            + entries_total_len(subs),
{
    lemma_auto_spec_u32_to_from_le_bytes();
    lemma_auto_spec_u64_to_from_le_bytes();
    lemma_entries_bytes_len(audio);
    lemma_entries_bytes_len(subs);
}

} // verus!
