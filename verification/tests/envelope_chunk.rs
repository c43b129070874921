use nexusflix::chunk::{assemble_response, plan_chunk, EncodeJob, EncoderOutput};
use nexusflix::envelope::{parse_envelope, AudioData, SubtitleData, VideoResponse};
use nexusflix::probe::{Track, Tracktype, VideoMetadata};

fn le32(x: u32) -> Vec<u8> {
    x.to_le_bytes().to_vec()
}

fn le64(x: u64) -> Vec<u8> {
    x.to_le_bytes().to_vec()
}

fn sample_response() -> VideoResponse {
    VideoResponse {
        video_data: vec![1, 2, 3],
        audio_data: vec![
            AudioData { id: 0, data: vec![4, 5] },
            AudioData { id: 1, data: vec![] },
        ],
        subtitle_data: vec![SubtitleData { id: 0, data: String::from("WEBVTT") }],
    }
}

#[test]
fn envelope_layout_is_exact() {
    let bytes = sample_response().as_bytes();
    let mut expected = Vec::new();
    expected.extend_from_slice(&le32(2));
    expected.extend_from_slice(&le32(1));
    expected.extend_from_slice(&le64(3));
    expected.extend_from_slice(&[1, 2, 3]);
    expected.extend_from_slice(&le64(0));
    expected.extend_from_slice(&le64(2));
    expected.extend_from_slice(&[4, 5]);
    expected.extend_from_slice(&le64(1));
    expected.extend_from_slice(&le64(0));
    expected.extend_from_slice(&le64(0));
    expected.extend_from_slice(&le64(6));
    expected.extend_from_slice(b"WEBVTT");
    assert_eq!(bytes, expected);
}

#[test]
fn envelope_length_formula() {
    let r = sample_response();
    let bytes = r.as_bytes();
    let audio_sum: usize = r.audio_data.iter().map(|a| 16 + a.data.len()).sum();
    let sub_sum: usize = r.subtitle_data.iter().map(|s| 16 + s.data.len()).sum();
    assert_eq!(bytes.len(), 16 + r.video_data.len() + audio_sum + sub_sum);
}

#[test]
fn empty_envelope_is_header_only() {
    let r = VideoResponse { video_data: vec![], audio_data: vec![], subtitle_data: vec![] };
    let bytes = r.as_bytes();
    assert_eq!(bytes.len(), 16);
    assert_eq!(&bytes[0..4], &le32(0)[..]);
    assert_eq!(&bytes[4..8], &le32(0)[..]);
    assert_eq!(&bytes[8..16], &le64(0)[..]);
    let parsed = parse_envelope(&bytes).expect("empty envelope parses");
    assert_eq!(parsed.video_data.len(), 0);
    assert_eq!(parsed.audio_tracks.len(), 0);
    assert_eq!(parsed.subtitle_tracks.len(), 0);
}

#[test]
fn parse_then_emit_is_byte_identical() {
    let bytes = sample_response().as_bytes();
    let parsed = parse_envelope(&bytes).expect("envelope parses");
    assert_eq!(parsed.emit(), bytes);
}

#[test]
fn parse_recovers_tracks() {
    let bytes = sample_response().as_bytes();
    let parsed = parse_envelope(&bytes).expect("envelope parses");
    assert_eq!(parsed.video_data, vec![1, 2, 3]);
    assert_eq!(parsed.audio_tracks.len(), 2);
    assert_eq!(parsed.audio_tracks[0].id, 0);
    assert_eq!(parsed.audio_tracks[0].data, vec![4, 5]);
    assert_eq!(parsed.audio_tracks[1].id, 1);
    assert_eq!(parsed.audio_tracks[1].data, Vec::<u8>::new());
    assert_eq!(parsed.subtitle_tracks.len(), 1);
    assert_eq!(parsed.subtitle_tracks[0].id, 0);
    assert_eq!(parsed.subtitle_tracks[0].data, b"WEBVTT".to_vec());
}

#[test]
fn parse_rejects_trailing_bytes() {
    let mut bytes = sample_response().as_bytes();
    bytes.push(0);
    assert!(parse_envelope(&bytes).is_none());
}

#[test]
fn parse_rejects_truncation() {
    let bytes = sample_response().as_bytes();
    for cut in [bytes.len() - 1, 15, 7, 0] {
        assert!(parse_envelope(&bytes[..cut]).is_none(), "cut {cut} must fail");
    }
}

fn track(id: u64, kind: Tracktype, label: &str) -> Track {
    Track { id, kind, label: String::from(label) }
}

fn sample_metadata() -> VideoMetadata {
    VideoMetadata {
        duration_bits: 120.0f64.to_bits(),
        tracks: vec![
            track(0, Tracktype::Video, "Video 0"),
            track(0, Tracktype::Audio, "English"),
            track(1, Tracktype::Audio, "Commentary"),
            track(0, Tracktype::Subtitle(false), "PGS"),
            track(1, Tracktype::Subtitle(true), "movie.srt"),
        ],
        unavailable_subs: vec![0],
    }
}

#[test]
fn plan_skips_unavailable_subtitles() {
    let jobs = plan_chunk(&sample_metadata());
    assert_eq!(
        jobs,
        vec![
            EncodeJob::Video,
            EncodeJob::Audio { id: 0 },
            EncodeJob::Audio { id: 1 },
            EncodeJob::Subtitle { id: 1, external: true },
        ]
    );
}

#[test]
fn plan_counts_match_probe() {
    let m = sample_metadata();
    let jobs = plan_chunk(&m);
    let audio_jobs = jobs.iter().filter(|j| matches!(j, EncodeJob::Audio { .. })).count();
    let sub_jobs = jobs.iter().filter(|j| matches!(j, EncodeJob::Subtitle { .. })).count();
    let audio_tracks =
        m.tracks.iter().filter(|t| matches!(t.kind, Tracktype::Audio)).count();
    let sub_tracks =
        m.tracks.iter().filter(|t| matches!(t.kind, Tracktype::Subtitle(_))).count();
    assert_eq!(audio_jobs, audio_tracks);
    assert_eq!(sub_jobs, sub_tracks - m.unavailable_subs.len());
}

#[test]
fn assemble_builds_chunk_in_plan_order() {
    let m = sample_metadata();
    let outputs = vec![
        EncoderOutput::Video(vec![9, 9]),
        EncoderOutput::Audio(vec![1]),
        EncoderOutput::Audio(vec![2, 2]),
        EncoderOutput::Subtitle(String::from("WEBVTT\n")),
    ];
    let resp = assemble_response(&m, outputs).expect("outputs match the plan");
    assert_eq!(resp.video_data, vec![9, 9]);
    assert_eq!(resp.audio_data.len(), 2);
    assert_eq!(resp.audio_data[0].id, 0);
    assert_eq!(resp.audio_data[0].data, vec![1]);
    assert_eq!(resp.audio_data[1].id, 1);
    assert_eq!(resp.audio_data[1].data, vec![2, 2]);
    assert_eq!(resp.subtitle_data.len(), 1);
    assert_eq!(resp.subtitle_data[0].id, 1);
    assert_eq!(resp.subtitle_data[0].data, "WEBVTT\n");
}

#[test]
fn assembled_envelope_counts_and_suppression() {
    let m = sample_metadata();
    let outputs = vec![
        EncoderOutput::Video(vec![9, 9]),
        EncoderOutput::Audio(vec![1]),
        EncoderOutput::Audio(vec![2, 2]),
        EncoderOutput::Subtitle(String::from("WEBVTT\n")),
    ];
    let resp = assemble_response(&m, outputs).expect("outputs match the plan");
    let bytes = resp.as_bytes();
    let parsed = parse_envelope(&bytes).expect("envelope parses");
    assert_eq!(parsed.audio_tracks.len(), 2);
    assert_eq!(parsed.subtitle_tracks.len(), 1);
    // the graphic subtitle track (id 0) is absent from the envelope
    assert!(parsed.subtitle_tracks.iter().all(|t| t.id != 0));
}

#[test]
fn assemble_rejects_mismatched_outputs() {
    let m = sample_metadata();
    let too_few = vec![EncoderOutput::Video(vec![9])];
    assert!(assemble_response(&m, too_few).is_none());
    let wrong_kind = vec![
        EncoderOutput::Audio(vec![1]),
        EncoderOutput::Audio(vec![1]),
        EncoderOutput::Audio(vec![2, 2]),
        EncoderOutput::Subtitle(String::from("WEBVTT\n")),
    ];
    assert!(assemble_response(&m, wrong_kind).is_none());
}

#[test]
fn chunk_without_video_track_has_empty_video() {
    let m = VideoMetadata {
        duration_bits: 1.0f64.to_bits(),
        tracks: vec![track(0, Tracktype::Audio, "Audio 0")],
        unavailable_subs: vec![],
    };
    let resp = assemble_response(&m, vec![EncoderOutput::Audio(vec![7])])
        .expect("outputs match the plan");
    assert!(resp.video_data.is_empty());
    assert_eq!(resp.audio_data.len(), 1);
}
