//! Chunk planning and assembly: which encoder runs for which track of a
//! probed file, and how the encoder outputs become the in-memory chunk.

use vstd::prelude::*;

use crate::envelope::AudioData;
use crate::envelope::SubtitleData;
use crate::envelope::VideoResponse;
use crate::envelope::audio_view;
use crate::probe::has_subtitle_track;
use crate::probe::lemma_external_tracks_ids;
use crate::probe::lemma_stream_tracks_ids;
use crate::probe::spec_external_tracks;
use crate::probe::spec_probe_tracks;
use crate::probe::spec_stream_tracks;
use crate::probe::tracks_model;
use crate::probe::StreamInfo;
use crate::probe::TrackModel;
use crate::probe::Tracktype;
use crate::probe::VideoMetadata;

verus! {

/// One encoder invocation: the video encoder, the audio encoder for one
/// audio track, or the subtitle encoder for one embedded or external
/// subtitle track.
#[derive(Clone, Copy, Debug, PartialEq, Eq, Structural)]
pub enum EncodeJob {
    Video,
    Audio { id: u64 },
    Subtitle { id: u64, external: bool },
}

/// The encoder runs a track list calls for, in track order: every video and
/// audio track gets a job; a subtitle track gets one unless its id is among
/// the unavailable (graphic) subtitle ids.
pub open spec fn spec_plan(ts: Seq<TrackModel>, unavail: Seq<u64>) -> Seq<EncodeJob>
    decreases ts.len(),
{
    if ts.len() == 0 {
        Seq::empty()
    } else {
        let t = ts[0];
        let rest = spec_plan(ts.drop_first(), unavail);
        match t.kind {
            Tracktype::Video => seq![EncodeJob::Video] + rest,
            Tracktype::Audio => seq![EncodeJob::Audio { id: t.id }] + rest,
            Tracktype::Subtitle(ext) => if unavail.contains(t.id) {
                rest
            } else {
                seq![EncodeJob::Subtitle { id: t.id, external: ext }] + rest
            },
        }
    }
}

/// Membership test on a list of ids.
pub fn contains_id(v: &Vec<u64>, x: u64) -> (r: bool)
    ensures
        r == v@.contains(x),
{
    let mut i: usize = 0;
    while i < v.len()
        invariant
            i <= v@.len(),
            forall|k: int| 0 <= k < i ==> v@[k] != x,
        decreases v@.len() - i,
    {
        if v[i] == x {
            return true;
        }
        i = i + 1;
    }
    false
}

/// Plans the encoders of one chunk request from the probe's inventory.
pub fn plan_chunk(m: &VideoMetadata) -> (jobs: Vec<EncodeJob>)
    ensures
        jobs@ == spec_plan(tracks_model(m.tracks@), m.unavailable_subs@),
{
    let ghost ts = tracks_model(m.tracks@);
    let ghost unavail = m.unavailable_subs@;
    let mut jobs: Vec<EncodeJob> = Vec::new();
    let mut i: usize = 0;
    proof {
        assert(ts.skip(0) =~= ts);
        assert(jobs@ + spec_plan(ts, unavail) =~= spec_plan(ts, unavail));
    }
    while i < m.tracks.len()
        invariant
            i <= m.tracks@.len(),
            ts == tracks_model(m.tracks@),
            unavail == m.unavailable_subs@,
            spec_plan(ts, unavail) == jobs@ + spec_plan(ts.skip(i as int), unavail),
        decreases m.tracks@.len() - i,
    {
        let ghost cur = ts.skip(i as int);
        proof {
            assert(cur[0] == ts[i as int]);
            assert(cur.drop_first() =~= ts.skip(i + 1));
        }
        let t = &m.tracks[i];
        let ghost old_jobs = jobs@;
        match t.kind {
            Tracktype::Video => {
                jobs.push(EncodeJob::Video);
                proof {
                    assert(old_jobs + (seq![EncodeJob::Video] + spec_plan(ts.skip(i + 1), unavail))
                        =~= jobs@ + spec_plan(ts.skip(i + 1), unavail));
                }
            },
            Tracktype::Audio => {
                jobs.push(EncodeJob::Audio { id: t.id });
                proof {
                    assert(old_jobs + (seq![EncodeJob::Audio { id: t.id }] + spec_plan(
                        ts.skip(i + 1),
                        unavail,
                    )) =~= jobs@ + spec_plan(ts.skip(i + 1), unavail));
                }
            },
            Tracktype::Subtitle(ext) => {
                if !contains_id(&m.unavailable_subs, t.id) {
                    jobs.push(EncodeJob::Subtitle { id: t.id, external: ext });
                    proof {
                        assert(old_jobs + (seq![EncodeJob::Subtitle { id: t.id, external: ext }]
                            + spec_plan(ts.skip(i + 1), unavail)) =~= jobs@ + spec_plan(
                            ts.skip(i + 1),
                            unavail,
                        ));
                    }
                }
            },
        }
        i = i + 1;
    }
    proof {
        assert(ts.skip(ts.len() as int) =~= Seq::<TrackModel>::empty());
        assert(jobs@ + Seq::<EncodeJob>::empty() =~= jobs@);
    }
    jobs
}

/// The number of audio tracks in a track list.
pub open spec fn count_audio_tracks(ts: Seq<TrackModel>) -> nat
    decreases ts.len(),
{
    if ts.len() == 0 {
        0
    } else {
        (if ts[0].kind is Audio {
            1nat
        } else {
            0nat
        }) + count_audio_tracks(ts.drop_first())
    }
}

/// The number of subtitle tracks in a track list.
pub open spec fn count_subtitle_tracks(ts: Seq<TrackModel>) -> nat
    decreases ts.len(),
{
    if ts.len() == 0 {
        0
    } else {
        (if ts[0].kind is Subtitle {
            1nat
        } else {
            0nat
        }) + count_subtitle_tracks(ts.drop_first())
    }
}

/// The number of audio jobs in a plan.
pub open spec fn count_audio_jobs(jobs: Seq<EncodeJob>) -> nat
    decreases jobs.len(),
{
    if jobs.len() == 0 {
        0
    } else {
        (if jobs[0] is Audio {
            1nat
        } else {
            0nat
        }) + count_audio_jobs(jobs.drop_first())
    }
}

/// The number of subtitle jobs in a plan.
pub open spec fn count_subtitle_jobs(jobs: Seq<EncodeJob>) -> nat
    decreases jobs.len(),
{
    if jobs.len() == 0 {
        0
    } else {
        (if jobs[0] is Subtitle {
            1nat
        } else {
            0nat
        }) + count_subtitle_jobs(jobs.drop_first())
    }
}

proof fn lemma_count_jobs_cons(j: EncodeJob, rest: Seq<EncodeJob>)
    ensures
        count_audio_jobs(seq![j] + rest) == (if j is Audio {
            1nat
        } else {
            0nat
        }) + count_audio_jobs(rest),
        count_subtitle_jobs(seq![j] + rest) == (if j is Subtitle {
            1nat
        } else {
            0nat
        }) + count_subtitle_jobs(rest),
{
    assert((seq![j] + rest)[0] == j);
    assert((seq![j] + rest).drop_first() =~= rest);
}

/// A plan has one audio job per audio track.
pub proof fn lemma_plan_audio_count(ts: Seq<TrackModel>, unavail: Seq<u64>)
    ensures
        count_audio_jobs(spec_plan(ts, unavail)) == count_audio_tracks(ts),
    decreases ts.len(),
{
    if ts.len() != 0 {
        lemma_plan_audio_count(ts.drop_first(), unavail);
        let rest = spec_plan(ts.drop_first(), unavail);
        match ts[0].kind {
            Tracktype::Video => lemma_count_jobs_cons(EncodeJob::Video, rest),
            Tracktype::Audio => lemma_count_jobs_cons(EncodeJob::Audio { id: ts[0].id }, rest),
            Tracktype::Subtitle(ext) => {
                if !unavail.contains(ts[0].id) {
                    lemma_count_jobs_cons(
                        EncodeJob::Subtitle { id: ts[0].id, external: ext },
                        rest,
                    );
                }
            },
        }
    }
}

/// No subtitle job of a plan carries an unavailable id: what the probe marks
/// as a graphic subtitle is never scheduled for encoding.
pub proof fn lemma_plan_excludes_unavailable(ts: Seq<TrackModel>, unavail: Seq<u64>)
    ensures
        forall|j: int|
            0 <= j < spec_plan(ts, unavail).len() ==> (#[trigger] spec_plan(ts, unavail)[j]
                matches EncodeJob::Subtitle { id, external } ==> !unavail.contains(id)),
    decreases ts.len(),
{
    if ts.len() != 0 {
        lemma_plan_excludes_unavailable(ts.drop_first(), unavail);
        let rest = spec_plan(ts.drop_first(), unavail);
        let plan = spec_plan(ts, unavail);
        match ts[0].kind {
            Tracktype::Video => {
                assert(forall|j: int| 1 <= j < plan.len() ==> plan[j] == rest[j - 1]);
            },
            Tracktype::Audio => {
                assert(forall|j: int| 1 <= j < plan.len() ==> plan[j] == rest[j - 1]);
            },
            Tracktype::Subtitle(ext) => {
                if unavail.contains(ts[0].id) {
                    assert(plan == rest);
                } else {
                    assert(forall|j: int| 1 <= j < plan.len() ==> plan[j] == rest[j - 1]);
                }
            },
        }
    }
}

/// Two unavailable lists that agree on every subtitle id of the track list
/// give the same plan.
proof fn lemma_plan_same(ts: Seq<TrackModel>, u1: Seq<u64>, u2: Seq<u64>)
    requires
        forall|i: int|
            0 <= i < ts.len() && (#[trigger] ts[i]).kind is Subtitle ==> (u1.contains(ts[i].id)
                <==> u2.contains(ts[i].id)),
    ensures
        spec_plan(ts, u1) == spec_plan(ts, u2),
    decreases ts.len(),
{
    if ts.len() != 0 {
        assert(ts[0] == ts.drop_first()[0 - 1 + 1] || true);
        assert(forall|i: int|
            0 <= i < ts.drop_first().len() ==> #[trigger] ts.drop_first()[i] == ts[i + 1]);
        lemma_plan_same(ts.drop_first(), u1, u2);
    }
}

/// A plan has one subtitle job per subtitle track, less one per unavailable
/// id, provided subtitle ids are distinct and every unavailable id names a
/// subtitle track exactly once.
pub proof fn lemma_plan_subtitle_count(ts: Seq<TrackModel>, unavail: Seq<u64>)
    requires
        forall|i: int, j: int|
            0 <= i < j < ts.len() && (#[trigger] ts[i]).kind is Subtitle && (#[trigger] ts[j]).kind
                is Subtitle ==> ts[i].id != ts[j].id,
        forall|k: int|
            0 <= k < unavail.len() ==> has_subtitle_track(ts, #[trigger] unavail[k]),
        forall|k: int, l: int| 0 <= k < l < unavail.len() ==> unavail[k] != unavail[l],
    ensures
        unavail.len() <= count_subtitle_tracks(ts),
        count_subtitle_jobs(spec_plan(ts, unavail)) == count_subtitle_tracks(ts) - unavail.len(),
    decreases ts.len(),
{
    let rest = ts.drop_first();
    if ts.len() == 0 {
        if unavail.len() > 0 {
            assert(has_subtitle_track(ts, unavail[0]));
            assert(false);
        }
    } else {
        assert(forall|i: int| 0 <= i < rest.len() ==> #[trigger] rest[i] == ts[i + 1]);
        if !(ts[0].kind is Subtitle) {
            // every unavailable id still names a subtitle track of the rest
            assert forall|k: int| 0 <= k < unavail.len() implies has_subtitle_track(
                rest,
                #[trigger] unavail[k],
            ) by {
                let w = choose|i: int|
                    0 <= i < ts.len() && (#[trigger] ts[i]).kind is Subtitle && ts[i].id
                        == unavail[k];
                assert(rest[w - 1].kind is Subtitle && rest[w - 1].id == unavail[k]);
            }
            lemma_plan_subtitle_count(rest, unavail);
            let restplan = spec_plan(rest, unavail);
            match ts[0].kind {
                Tracktype::Video => lemma_count_jobs_cons(EncodeJob::Video, restplan),
                Tracktype::Audio => lemma_count_jobs_cons(
                    EncodeJob::Audio { id: ts[0].id },
                    restplan,
                ),
                Tracktype::Subtitle(_) => {},
            }
        } else {
            let d = ts[0].id;
            if unavail.contains(d) {
                let idx = choose|i: int| 0 <= i < unavail.len() && unavail[i] == d;
                let u2 = unavail.remove(idx);
                unavail.remove_ensures(idx);
                // membership in the shortened list is unchanged for other ids
                assert forall|x: u64| x != d implies (u2.contains(x) <==> unavail.contains(
                    x,
                )) by {
                    if u2.contains(x) {
                        let i = choose|i: int| 0 <= i < u2.len() && u2[i] == x;
                        if i < idx {
                            assert(unavail[i] == x);
                        } else {
                            assert(unavail[i + 1] == x);
                        }
                    }
                    if unavail.contains(x) {
                        let i = choose|i: int| 0 <= i < unavail.len() && unavail[i] == x;
                        if i < idx {
                            assert(u2[i] == x);
                        } else {
                            assert(i > idx);
                            assert(u2[i - 1] == x);
                        }
                    }
                }
                // distinctness carries over
                assert forall|k: int, l: int| 0 <= k < l < u2.len() implies u2[k] != u2[l] by {
                    let k0 = if k < idx {
                        k
                    } else {
                        k + 1
                    };
                    let l0 = if l < idx {
                        l
                    } else {
                        l + 1
                    };
                    assert(u2[k] == unavail[k0] && u2[l] == unavail[l0]);
                }
                // every id of the shortened list names a subtitle track of the rest
                assert forall|k: int| 0 <= k < u2.len() implies has_subtitle_track(
                    rest,
                    #[trigger] u2[k],
                ) by {
                    let k0 = if k < idx {
                        k
                    } else {
                        k + 1
                    };
                    assert(u2[k] == unavail[k0]);
                    assert(u2[k] != d);
                    assert(has_subtitle_track(ts, unavail[k0]));
                    let w = choose|i: int|
                        0 <= i < ts.len() && (#[trigger] ts[i]).kind is Subtitle && ts[i].id
                            == unavail[k0];
                    assert(w != 0);
                    assert(rest[w - 1].kind is Subtitle && rest[w - 1].id == u2[k]);
                }
                // the rest's subtitle ids differ from d, so the shortened list
                // filters the rest exactly as the full one does
                assert forall|i: int|
                    0 <= i < rest.len() && (#[trigger] rest[i]).kind is Subtitle implies (
                u2.contains(rest[i].id) <==> unavail.contains(rest[i].id)) by {
                    assert(rest[i] == ts[i + 1]);
                    assert(ts[i + 1].id != d);
                }
                lemma_plan_same(rest, unavail, u2);
                lemma_plan_subtitle_count(rest, u2);
            } else {
                assert forall|k: int| 0 <= k < unavail.len() implies has_subtitle_track(
                    rest,
                    #[trigger] unavail[k],
                ) by {
                    let w = choose|i: int|
                        0 <= i < ts.len() && (#[trigger] ts[i]).kind is Subtitle && ts[i].id
                            == unavail[k];
                    if w == 0 {
                        assert(unavail.contains(d));
                        assert(false);
                    }
                    assert(rest[w - 1].kind is Subtitle && rest[w - 1].id == unavail[k]);
                }
                lemma_plan_subtitle_count(rest, unavail);
                lemma_count_jobs_cons(
                    EncodeJob::Subtitle { id: d, external: ts[0].kind->Subtitle_0 },
                    spec_plan(rest, unavail),
                );
            }
        }
    }
}

/// What one encoder run hands back: the video bytes, one audio track's
/// bytes, or one subtitle track's WebVTT text.
#[derive(Debug)]
pub enum EncoderOutput {
    Video(Vec<u8>),
    Audio(Vec<u8>),
    Subtitle(String),
}

/// Whether an output is of the kind its job calls for.
pub open spec fn output_matches(j: EncodeJob, o: EncoderOutput) -> bool {
    match j {
        EncodeJob::Video => o is Video,
        EncodeJob::Audio { .. } => o is Audio,
        EncodeJob::Subtitle { .. } => o is Subtitle,
    }
}

/// Whether a run of outputs matches a plan, job by job.
pub open spec fn outputs_match(jobs: Seq<EncodeJob>, outs: Seq<EncoderOutput>) -> bool {
    outs.len() == jobs.len() && forall|i: int|
        0 <= i < jobs.len() ==> output_matches(#[trigger] jobs[i], outs[i])
}

/// Whether a plan holds a video job.
pub open spec fn has_video_job(jobs: Seq<EncodeJob>) -> bool {
    exists|i: int| 0 <= i < jobs.len() && (#[trigger] jobs[i]) is Video
}

/// The byte payload of an output.
pub open spec fn out_bytes(o: EncoderOutput) -> Seq<u8> {
    match o {
        EncoderOutput::Video(d) => d@,
        EncoderOutput::Audio(d) => d@,
        EncoderOutput::Subtitle(_) => Seq::empty(),
    }
}

/// The text payload of an output.
pub open spec fn out_text(o: EncoderOutput) -> Seq<char> {
    match o {
        EncoderOutput::Subtitle(s) => s@,
        _ => Seq::empty(),
    }
}

/// The mathematical model of an assembled chunk.
pub struct ChunkModel {
    pub video: Seq<u8>,
    pub audio: Seq<(u64, Seq<u8>)>,
    pub subs: Seq<(u64, Seq<char>)>,
}

/// What a plan and its outputs assemble to: the last video output as the
/// video bytes, and one entry per audio and subtitle job, in plan order.
pub open spec fn spec_assemble(jobs: Seq<EncodeJob>, outs: Seq<EncoderOutput>) -> ChunkModel
    decreases jobs.len(),
{
    if jobs.len() == 0 || outs.len() == 0 {
        ChunkModel { video: Seq::empty(), audio: Seq::empty(), subs: Seq::empty() }
    } else {
        let rest = spec_assemble(jobs.drop_first(), outs.drop_first());
        match jobs[0] {
            EncodeJob::Video => ChunkModel {
                video: if has_video_job(jobs.drop_first()) {
                    rest.video
                } else {
                    out_bytes(outs[0])
                },
                audio: rest.audio,
                subs: rest.subs,
            },
            EncodeJob::Audio { id } => ChunkModel {
                video: rest.video,
                audio: seq![(id, out_bytes(outs[0]))] + rest.audio,
                subs: rest.subs,
            },
            EncodeJob::Subtitle { id, external } => ChunkModel {
                video: rest.video,
                audio: rest.audio,
                subs: seq![(id, out_text(outs[0]))] + rest.subs,
            },
        }
    }
}

/// A plan's suffix holds a video job exactly when a video job stands at or
/// after the given position.
proof fn lemma_video_job_shift(jobs: Seq<EncodeJob>, i: int)
    requires
        0 <= i < jobs.len(),
        !(jobs[i] is Video),
    ensures
        has_video_job(jobs.skip(i)) == has_video_job(jobs.skip(i + 1)),
{
    assert(forall|k: int|
        0 <= k < jobs.skip(i).len() ==> #[trigger] jobs.skip(i)[k] == jobs[i + k]);
    assert(forall|k: int|
        0 <= k < jobs.skip(i + 1).len() ==> #[trigger] jobs.skip(i + 1)[k] == jobs[i + 1 + k]);
    if has_video_job(jobs.skip(i)) {
        let w = choose|k: int| 0 <= k < jobs.skip(i).len() && (#[trigger] jobs.skip(i)[k]) is Video;
        assert(w != 0);
        assert(jobs.skip(i + 1)[w - 1] is Video);
        assert(has_video_job(jobs.skip(i + 1)));
    }
    if has_video_job(jobs.skip(i + 1)) {
        let w = choose|k: int|
            0 <= k < jobs.skip(i + 1).len() && (#[trigger] jobs.skip(i + 1)[k]) is Video;
        assert(jobs.skip(i)[w + 1] is Video);
        assert(has_video_job(jobs.skip(i)));
    }
}

/// A plan without a video job assembles to an empty video buffer.
proof fn lemma_assemble_no_video(jobs: Seq<EncodeJob>, outs: Seq<EncoderOutput>)
    requires
        !has_video_job(jobs),
    ensures
        spec_assemble(jobs, outs).video == Seq::<u8>::empty(),
    decreases jobs.len(),
{
    if jobs.len() != 0 && outs.len() != 0 {
        assert(forall|k: int|
            0 <= k < jobs.drop_first().len() ==> #[trigger] jobs.drop_first()[k] == jobs[k + 1]);
        assert(!has_video_job(jobs.drop_first()));
        assert(!(jobs[0] is Video));
        lemma_assemble_no_video(jobs.drop_first(), outs.drop_first());
    }
}

/// The id/text pairs of a sequence of subtitle tracks.
pub open spec fn subtitle_text_view(s: Seq<SubtitleData>) -> Seq<(u64, Seq<char>)> {
    s.map_values(|t: SubtitleData| (t.id, t.data@))
}

/// Assembles the chunk from a probe's plan and the outputs of its encoders.
/// Succeeds exactly when the outputs match the plan job by job; the chunk
/// then holds the last video output as its video bytes and one audio and
/// subtitle entry per job, in plan order.
#[verifier::loop_isolation(false)]
pub fn assemble_response(m: &VideoMetadata, outputs: Vec<EncoderOutput>) -> (r: Option<
    VideoResponse,
>)
    ensures
        ({
            let jobs = spec_plan(tracks_model(m.tracks@), m.unavailable_subs@);
            &&& (r is Some <==> outputs_match(jobs, outputs@))
            &&& (r matches Some(resp) ==> {
                let model = spec_assemble(jobs, outputs@);
                &&& resp.video_data@ == model.video
                &&& audio_view(resp.audio_data@) == model.audio
                &&& subtitle_text_view(resp.subtitle_data@) == model.subs
            })
        }),
{
    let ghost jobs_full = spec_plan(tracks_model(m.tracks@), m.unavailable_subs@);
    let ghost outs_full = outputs@;
    let jobs = plan_chunk(m);
    if outputs.len() != jobs.len() {
        return None;
    }
    let mut outs = outputs;
    let mut video_data: Vec<u8> = Vec::new();
    let mut audio_data: Vec<AudioData> = Vec::new();
    let mut subtitle_data: Vec<SubtitleData> = Vec::new();
    let mut i: usize = 0;
    let ghost full = spec_assemble(jobs_full, outs_full);
    proof {
        assert(jobs_full.skip(0) =~= jobs_full);
        assert(outs_full.skip(0) =~= outs_full);
        assert(audio_view(audio_data@) + full.audio =~= full.audio);
        assert(subtitle_text_view(subtitle_data@) + full.subs =~= full.subs);
        if !has_video_job(jobs_full) {
            lemma_assemble_no_video(jobs_full, outs_full);
        }
    }
    while i < jobs.len()
        invariant
            i <= jobs@.len(),
            jobs@ == jobs_full,
            jobs_full.len() == outs_full.len(),
            outs@ == outs_full.skip(i as int),
            full == spec_assemble(jobs_full, outs_full),
            forall|k: int| 0 <= k < i ==> output_matches(#[trigger] jobs_full[k], outs_full[k]),
            full.audio == audio_view(audio_data@) + spec_assemble(
                jobs_full.skip(i as int),
                outs_full.skip(i as int),
            ).audio,
            full.subs == subtitle_text_view(subtitle_data@) + spec_assemble(
                jobs_full.skip(i as int),
                outs_full.skip(i as int),
            ).subs,
            full.video == if has_video_job(jobs_full.skip(i as int)) {
                spec_assemble(jobs_full.skip(i as int), outs_full.skip(i as int)).video
            } else {
                video_data@
            },
        decreases jobs@.len() - i,
    {
        let ghost cur_jobs = jobs_full.skip(i as int);
        let ghost cur_outs = outs_full.skip(i as int);
        proof {
            assert(cur_jobs[0] == jobs_full[i as int]);
            assert(cur_outs[0] == outs_full[i as int]);
            assert(cur_jobs.drop_first() =~= jobs_full.skip(i + 1));
            assert(cur_outs.drop_first() =~= outs_full.skip(i + 1));
        }
        let o = outs.remove(0);
        proof {
            assert(outs@ =~= outs_full.skip(i + 1));
        }
        let job = jobs[i];
        let ghost old_audio = audio_data@;
        let ghost old_subs = subtitle_data@;
        let ghost rest = spec_assemble(jobs_full.skip(i + 1), outs_full.skip(i + 1));
        match job {
            EncodeJob::Video => {
                match o {
                    EncoderOutput::Video(d) => {
                        video_data = d;
                        proof {
                            if has_video_job(jobs_full.skip(i + 1)) {
                                let w = choose|k: int|
                                    0 <= k < jobs_full.skip(i + 1).len() && (#[trigger] jobs_full.skip(
                                        i + 1,
                                    )[k]) is Video;
                                assert(cur_jobs[w + 1] is Video);
                                assert(has_video_job(cur_jobs));
                            } else {
                                assert(cur_jobs[0] is Video);
                                assert(has_video_job(cur_jobs));
                                assert(spec_assemble(cur_jobs, cur_outs).video == out_bytes(
                                    cur_outs[0],
                                ));
                            }
                        }
                    },
                    _ => {
                        proof {
                            assert(!output_matches(jobs_full[i as int], outs_full[i as int]));
                            assert(!outputs_match(jobs_full, outs_full));
                        }
                        return None;
                    },
                }
            },
            EncodeJob::Audio { id } => {
                match o {
                    EncoderOutput::Audio(d) => {
                        audio_data.push(AudioData { id, data: d });
                        proof {
                            lemma_video_job_shift(jobs_full, i as int);
                            assert(audio_view(audio_data@) =~= audio_view(old_audio).push(
                                (id, outs_full[i as int]->Audio_0@),
                            ));
                            assert(audio_view(old_audio) + (seq![
                                (id, out_bytes(cur_outs[0])),
                            ] + rest.audio) =~= audio_view(audio_data@) + rest.audio);
                        }
                    },
                    _ => {
                        proof {
                            assert(!output_matches(jobs_full[i as int], outs_full[i as int]));
                            assert(!outputs_match(jobs_full, outs_full));
                        }
                        return None;
                    },
                }
            },
            EncodeJob::Subtitle { id, external } => {
                match o {
                    EncoderOutput::Subtitle(s) => {
                        subtitle_data.push(SubtitleData { id, data: s });
                        proof {
                            lemma_video_job_shift(jobs_full, i as int);
                            assert(subtitle_text_view(subtitle_data@) =~= subtitle_text_view(
                                old_subs,
                            ).push((id, outs_full[i as int]->Subtitle_0@)));
                            assert(subtitle_text_view(old_subs) + (seq![
                                (id, out_text(cur_outs[0])),
                            ] + rest.subs) =~= subtitle_text_view(subtitle_data@) + rest.subs);
                        }
                    },
                    _ => {
                        proof {
                            assert(!output_matches(jobs_full[i as int], outs_full[i as int]));
                            assert(!outputs_match(jobs_full, outs_full));
                        }
                        return None;
                    },
                }
            },
        }
        i = i + 1;
    }
    proof {
        assert(jobs_full.skip(jobs_full.len() as int) =~= Seq::<EncodeJob>::empty());
        assert(outs_full.skip(outs_full.len() as int) =~= Seq::<EncoderOutput>::empty());
        assert(audio_view(audio_data@) + Seq::<(u64, Seq<u8>)>::empty() =~= audio_view(
            audio_data@,
        ));
        assert(subtitle_text_view(subtitle_data@) + Seq::<(u64, Seq<char>)>::empty()
            =~= subtitle_text_view(subtitle_data@));
    }
    Some(VideoResponse { video_data, audio_data, subtitle_data })
}

/// The entries of an assembled chunk are one per matching job: as many audio
/// entries as audio jobs, as many subtitle entries as subtitle jobs.
pub proof fn lemma_assemble_counts(jobs: Seq<EncodeJob>, outs: Seq<EncoderOutput>)
    requires
        outputs_match(jobs, outs),
    ensures
        spec_assemble(jobs, outs).audio.len() == count_audio_jobs(jobs),
        spec_assemble(jobs, outs).subs.len() == count_subtitle_jobs(jobs),
    decreases jobs.len(),
{
    if jobs.len() != 0 {
        assert(forall|k: int|
            0 <= k < jobs.drop_first().len() ==> #[trigger] jobs.drop_first()[k] == jobs[k + 1]);
        assert(forall|k: int|
            0 <= k < outs.drop_first().len() ==> #[trigger] outs.drop_first()[k] == outs[k + 1]);
        lemma_assemble_counts(jobs.drop_first(), outs.drop_first());
    }
}

/// Law: a chunk built from a probe's plan has one audio entry per audio
/// track of the probe, and one subtitle entry per subtitle track that is not
/// an unavailable (graphic) one.
pub proof fn lemma_chunk_track_counts(streams: Seq<StreamInfo>, files: Seq<Seq<char>>)
    requires
        streams.len() + files.len() < u64::MAX,
    ensures
        ({
            let ts = spec_probe_tracks(streams, files);
            let unavail = spec_stream_tracks(streams, 0, 0).unavailable;
            let jobs = spec_plan(ts, unavail);
            &&& count_audio_jobs(jobs) == count_audio_tracks(ts)
            &&& unavail.len() <= count_subtitle_tracks(ts)
            &&& count_subtitle_jobs(jobs) == count_subtitle_tracks(ts) - unavail.len()
        }),
{
    let base = spec_stream_tracks(streams, 0, 0);
    let ext = spec_external_tracks(files, base.next_sub);
    let ts = spec_probe_tracks(streams, files);
    let unavail = base.unavailable;
    lemma_stream_tracks_ids(streams, 0, 0);
    lemma_external_tracks_ids(files, base.next_sub);
    assert(ts == base.tracks + ext);
    assert(forall|i: int| 0 <= i < base.tracks.len() ==> #[trigger] ts[i] == base.tracks[i]);
    assert(forall|i: int|
        base.tracks.len() <= i < ts.len() ==> #[trigger] ts[i] == ext[i - base.tracks.len()]);
    lemma_plan_audio_count(ts, unavail);
    assert forall|k: int| 0 <= k < unavail.len() implies has_subtitle_track(
        ts,
        #[trigger] unavail[k],
    ) by {
        assert(has_subtitle_track(base.tracks, unavail[k]));
        let w = choose|i: int|
            0 <= i < base.tracks.len() && (#[trigger] base.tracks[i]).kind is Subtitle
                && base.tracks[i].id == unavail[k];
        assert(ts[w].kind is Subtitle && ts[w].id == unavail[k]);
    }
    lemma_plan_subtitle_count(ts, unavail);
}

/// Law: a chunk assembled from a probe's plan and matching encoder outputs
/// carries one audio entry per audio track of the probe, and one subtitle
/// entry per subtitle track less one per unavailable (graphic) id — the
/// counts the envelope's two count fields then carry.
pub proof fn lemma_response_track_counts(
    streams: Seq<StreamInfo>,
    files: Seq<Seq<char>>,
    outs: Seq<EncoderOutput>,
)
    requires
        streams.len() + files.len() < u64::MAX,
        outputs_match(
            spec_plan(
                spec_probe_tracks(streams, files),
                spec_stream_tracks(streams, 0, 0).unavailable,
            ),
            outs,
        ),
    ensures
        ({
            let ts = spec_probe_tracks(streams, files);
            let unavail = spec_stream_tracks(streams, 0, 0).unavailable;
            let model = spec_assemble(spec_plan(ts, unavail), outs);
            &&& model.audio.len() == count_audio_tracks(ts)
            &&& model.subs.len() == count_subtitle_tracks(ts) - unavail.len()
        }),
{
    let ts = spec_probe_tracks(streams, files);
    let unavail = spec_stream_tracks(streams, 0, 0).unavailable;
    lemma_chunk_track_counts(streams, files);
    lemma_assemble_counts(spec_plan(ts, unavail), outs);
}

/// Law: a probed stream that is a graphic subtitle is advertised in the
/// probe's inventory as a subtitle track under its kind-local id, that id is
/// recorded unavailable, and no encoder job is planned for it, so it is
/// absent from the chunk.
pub proof fn lemma_graphic_stream_advertised_and_suppressed(
    streams: Seq<StreamInfo>,
    files: Seq<Seq<char>>,
    k: int,
)
    requires
        streams.len() + files.len() < u64::MAX,
        0 <= k < streams.len(),
        crate::probe::spec_stream_kind(streams[k].codec_type@) == Some(Tracktype::Subtitle(false)),
        streams[k].codec_name is Some,
        crate::probe::spec_is_graphic_codec(streams[k].codec_name->0@),
    ensures
        ({
            let ts = spec_probe_tracks(streams, files);
            let unavail = spec_stream_tracks(streams, 0, 0).unavailable;
            let id = crate::probe::count_subtitle_streams(streams, k) as u64;
            &&& exists|i: int|
                0 <= i < ts.len() && (#[trigger] ts[i]).kind == Tracktype::Subtitle(false)
                    && ts[i].id == id
            &&& unavail.contains(id)
            &&& forall|j: int|
                0 <= j < spec_plan(ts, unavail).len() ==> (#[trigger] spec_plan(ts, unavail)[j]
                    matches EncodeJob::Subtitle { id: jid, external } ==> jid != id)
        }),
{
    let base = spec_stream_tracks(streams, 0, 0);
    let ts = spec_probe_tracks(streams, files);
    let unavail = base.unavailable;
    let id = crate::probe::count_subtitle_streams(streams, k) as u64;
    crate::probe::lemma_graphic_stream_marked(streams, 0, 0, k);
    assert(ts == base.tracks + spec_external_tracks(files, base.next_sub));
    assert(forall|i: int| 0 <= i < base.tracks.len() ==> #[trigger] ts[i] == base.tracks[i]);
    let w = choose|i: int|
        0 <= i < base.tracks.len() && (#[trigger] base.tracks[i]).kind == Tracktype::Subtitle(
            false,
        ) && base.tracks[i].id == id;
    assert(ts[w].kind == Tracktype::Subtitle(false) && ts[w].id == id);
    lemma_plan_excludes_unavailable(ts, unavail);
}

/// Law: a subtitle track that the probe marks unavailable is present in the
/// probe's inventory and no encoder job is planned for it, so it is absent
/// from the chunk.
pub proof fn lemma_graphic_subtitles_suppressed(streams: Seq<StreamInfo>, files: Seq<Seq<char>>)
    requires
        streams.len() + files.len() < u64::MAX,
    ensures
        ({
            let ts = spec_probe_tracks(streams, files);
            let unavail = spec_stream_tracks(streams, 0, 0).unavailable;
            let jobs = spec_plan(ts, unavail);
            &&& forall|k: int|
                0 <= k < unavail.len() ==> has_subtitle_track(ts, #[trigger] unavail[k])
            &&& forall|j: int|
                0 <= j < jobs.len() ==> (#[trigger] jobs[j] matches EncodeJob::Subtitle {
                    id,
                    external,
                } ==> !unavail.contains(id))
        }),
{
    let base = spec_stream_tracks(streams, 0, 0);
    let ts = spec_probe_tracks(streams, files);
    let unavail = base.unavailable;
    lemma_stream_tracks_ids(streams, 0, 0);
    assert(ts == base.tracks + spec_external_tracks(files, base.next_sub));
    assert(forall|i: int| 0 <= i < base.tracks.len() ==> #[trigger] ts[i] == base.tracks[i]);
    assert forall|k: int| 0 <= k < unavail.len() implies has_subtitle_track(
        ts,
        #[trigger] unavail[k],
    ) by {
        assert(has_subtitle_track(base.tracks, unavail[k]));
        let w = choose|i: int|
            0 <= i < base.tracks.len() && (#[trigger] base.tracks[i]).kind is Subtitle
                && base.tracks[i].id == unavail[k];
        assert(ts[w].kind is Subtitle && ts[w].id == unavail[k]);
    }
    lemma_plan_excludes_unavailable(ts, unavail);
}

} // verus!
