use nexusflix::encoder::{
    audio_args, probe_duration_args, probe_streams_args, select_external_subtitle, subtitle_args,
    video_args,
};
use nexusflix::probe::{
    build_video_metadata, derive_label, is_graphic_codec, is_subtitle_file, StreamInfo, Tracktype,
};

fn stream(codec_type: &str) -> StreamInfo {
    StreamInfo {
        codec_type: String::from(codec_type),
        title: None,
        language: None,
        codec_name: None,
    }
}

fn tagged(codec_type: &str, title: Option<&str>, language: Option<&str>) -> StreamInfo {
    StreamInfo {
        codec_type: String::from(codec_type),
        title: title.map(String::from),
        language: language.map(String::from),
        codec_name: None,
    }
}

#[test]
fn track_ids_are_contiguous_per_kind() {
    let streams = vec![
        stream("video"),
        stream("audio"),
        stream("data"),
        stream("audio"),
        stream("subtitle"),
        stream("audio"),
        stream("subtitle"),
    ];
    let m = build_video_metadata(&streams, &vec![], 0);
    let audio_ids: Vec<u64> = m
        .tracks
        .iter()
        .filter(|t| matches!(t.kind, Tracktype::Audio))
        .map(|t| t.id)
        .collect();
    let sub_ids: Vec<u64> = m
        .tracks
        .iter()
        .filter(|t| matches!(t.kind, Tracktype::Subtitle(_)))
        .map(|t| t.id)
        .collect();
    assert_eq!(audio_ids, vec![0, 1, 2]);
    assert_eq!(sub_ids, vec![0, 1]);
    // the unrecognized "data" stream contributes no track
    assert_eq!(m.tracks.len(), 6);
}

#[test]
fn labels_prefer_title_then_language() {
    let streams = vec![
        tagged("audio", Some("Director's cut"), Some("eng")),
        tagged("audio", None, Some("eng")),
        tagged("audio", None, None),
        stream("subtitle"),
    ];
    let m = build_video_metadata(&streams, &vec![], 0);
    let labels: Vec<&str> = m.tracks.iter().map(|t| t.label.as_str()).collect();
    assert_eq!(labels, vec!["Director's cut", "eng", "Audio 2", "Subtitle 0"]);
}

#[test]
fn derive_label_uses_kind_word() {
    let s = tagged("subtitle", None, None);
    assert_eq!(derive_label(&s, Tracktype::Subtitle(false), 4), "Subtitle 4");
    let v = tagged("video", None, None);
    assert_eq!(derive_label(&v, Tracktype::Video, 0), "Video 0");
    // a stream without any tag block takes the same fallback
    let untagged = stream("audio");
    assert_eq!(derive_label(&untagged, Tracktype::Audio, 0), "Audio 0");
}

#[test]
fn graphic_subtitle_is_listed_and_marked_unavailable() {
    let mut pgs = stream("subtitle");
    pgs.codec_name = Some(String::from("hdmv_pgs_subtitle"));
    let mut srt = stream("subtitle");
    srt.codec_name = Some(String::from("subrip"));
    let streams = vec![stream("video"), stream("audio"), pgs, srt];
    let m = build_video_metadata(&streams, &vec![], 0);
    assert_eq!(m.tracks.len(), 4);
    assert!(m.tracks.iter().any(|t| matches!(t.kind, Tracktype::Subtitle(false)) && t.id == 0));
    assert_eq!(m.unavailable_subs, vec![0]);
}

#[test]
fn graphic_codec_names() {
    for name in ["dvbsub", "dvb_teletext_dvdsub", "hdmv_pgs_subtitle", "xsub"] {
        assert!(is_graphic_codec(name), "{name} is graphic");
    }
    for name in ["subrip", "ass", "webvtt", "mov_text", ""] {
        assert!(!is_graphic_codec(name), "{name} is not graphic");
    }
}

#[test]
fn external_subtitles_continue_subtitle_numbering() {
    let mut emb = stream("subtitle");
    emb.codec_name = Some(String::from("subrip"));
    let streams = vec![stream("video"), stream("audio"), emb];
    let files = vec![
        String::from("movie.srt"),
        String::from("cover.jpg"),
        String::from("movie.vtt"),
    ];
    let m = build_video_metadata(&streams, &files, 0);
    let ext: Vec<(u64, &str)> = m
        .tracks
        .iter()
        .filter(|t| matches!(t.kind, Tracktype::Subtitle(true)))
        .map(|t| (t.id, t.label.as_str()))
        .collect();
    assert_eq!(ext, vec![(1, "movie.srt"), (2, "movie.vtt")]);
}

#[test]
fn subtitle_file_extensions() {
    assert!(is_subtitle_file("movie.srt"));
    assert!(is_subtitle_file("movie.vtt"));
    assert!(!is_subtitle_file(".srt"));
    assert!(!is_subtitle_file("movie.txt"));
    assert!(!is_subtitle_file("srt"));
}

#[test]
fn duration_bits_are_kept() {
    let m = build_video_metadata(&vec![stream("video")], &vec![], 95.5f64.to_bits());
    assert_eq!(f64::from_bits(m.duration_bits), 95.5);
}

#[test]
fn video_encoder_arguments() {
    let args = video_args("/media/movie.mkv", "30", "10");
    let expected: Vec<&str> = vec![
        "-v", "error", "-hwaccel", "cuda", "-hwaccel_output_format", "cuda", "-ss", "30", "-i",
        "/media/movie.mkv", "-t", "10", "-c:v", "h264_nvenc", "-crf", "20", "-vf",
        "scale_cuda=1920:1080:format=yuv420p", "-force_key_frames", "expr:gte(t,n_forced*2)",
        "-movflags", "frag_keyframe+empty_moov+faststart+default_base_moof", "-an", "-f", "mp4",
        "pipe:1",
    ];
    assert_eq!(args, expected);
}

#[test]
fn audio_encoder_arguments_map_the_track() {
    let args = audio_args("/media/movie.mkv", 3, "0", "10");
    let expected: Vec<&str> = vec![
        "-v", "error", "-hwaccel", "cuda", "-hwaccel_output_format", "cuda", "-ss", "0", "-i",
        "/media/movie.mkv", "-t", "10", "-c:a", "libfdk_aac", "-ac", "2", "-map", "0:a:3",
        "-force_key_frames", "expr:gte(t,n_forced*2)", "-movflags",
        "frag_keyframe+empty_moov+faststart+default_base_moof", "-vn", "-f", "mp4", "pipe:1",
    ];
    assert_eq!(args, expected);
}

#[test]
fn subtitle_encoder_arguments_embedded_and_external() {
    let embedded = subtitle_args("/media/movie.mkv", 2, false, "5", "10");
    let expected_embedded: Vec<&str> = vec![
        "-v", "error", "-ss", "5", "-i", "/media/movie.mkv", "-output_ts_offset", "5", "-t", "10",
        "-map", "0:s:2", "-c:s", "webvtt", "-f", "webvtt", "pipe:1",
    ];
    assert_eq!(embedded, expected_embedded);
    let external = subtitle_args("/media/movie.srt", 2, true, "5", "10");
    let expected_external: Vec<&str> = vec![
        "-v", "error", "-ss", "5", "-i", "/media/movie.srt", "-output_ts_offset", "5", "-t", "10",
        "-c:s", "webvtt", "-f", "webvtt", "pipe:1",
    ];
    assert_eq!(external, expected_external);
}

#[test]
fn probe_arguments() {
    assert_eq!(
        probe_streams_args("a.mkv"),
        vec!["-v", "quiet", "-print_format", "json", "-show_streams", "a.mkv"]
    );
    assert_eq!(
        probe_duration_args("a.mkv"),
        vec![
            "-select_streams",
            "v:0",
            "-show_entries",
            "format=duration",
            "-of",
            "default=noprint_wrappers=1:nokey=1",
            "a.mkv"
        ]
    );
}

#[test]
fn external_subtitle_selection_takes_last_srt() {
    let files = vec![
        String::from("a.srt"),
        String::from("b.srt"),
        String::from("c.vtt"),
    ];
    assert_eq!(select_external_subtitle(&files), Some(String::from("b.srt")));
    let none = vec![String::from("c.vtt"), String::from("cover.jpg")];
    assert_eq!(select_external_subtitle(&none), None);
}
