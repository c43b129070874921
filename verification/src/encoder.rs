//! The fixed argument lists of the external probe and encoder processes, and
//! the choice of the sidecar subtitle file for an external subtitle track.
//! Timestamps and durations arrive already formatted, since only their text
//! enters the argument lists.

use vstd::prelude::*;

use crate::text::spec_dec;
use crate::text::spec_ends_with;
use crate::text::str_ends_with;
use crate::text::u64_to_string;

verus! {

/// The character sequences of a list of argument strings.
pub open spec fn args_view(s: Seq<String>) -> Seq<Seq<char>> {
    s.map_values(|x: String| x@)
}

/// The probe invocation that lists all streams as a structured document.
pub open spec fn spec_probe_streams_args(path: Seq<char>) -> Seq<Seq<char>> {
    seq!["-v"@, "quiet"@, "-print_format"@, "json"@, "-show_streams"@, path]
}

/// Builds the stream-listing probe's arguments.
pub fn probe_streams_args(path: &str) -> (r: Vec<String>)
    ensures
        args_view(r@) == spec_probe_streams_args(path@),
{
    let mut r: Vec<String> = Vec::new();
    r.push(String::from_str("-v"));
    r.push(String::from_str("quiet"));
    r.push(String::from_str("-print_format"));
    r.push(String::from_str("json"));
    r.push(String::from_str("-show_streams"));
    r.push(String::from_str(path));
    proof {
        assert(args_view(r@) =~= spec_probe_streams_args(path@));
    }
    r
}

/// The probe invocation that prints the container duration of the first
/// video stream as bare text.
pub open spec fn spec_probe_duration_args(path: Seq<char>) -> Seq<Seq<char>> {
    seq![
        "-select_streams"@,
        "v:0"@,
        "-show_entries"@,
        "format=duration"@,
        "-of"@,
        "default=noprint_wrappers=1:nokey=1"@,
        path,
    ]
}

/// Builds the duration probe's arguments.
pub fn probe_duration_args(path: &str) -> (r: Vec<String>)
    ensures
        args_view(r@) == spec_probe_duration_args(path@),
{
    let mut r: Vec<String> = Vec::new();
    r.push(String::from_str("-select_streams"));
    r.push(String::from_str("v:0"));
    r.push(String::from_str("-show_entries"));
    r.push(String::from_str("format=duration"));
    r.push(String::from_str("-of"));
    r.push(String::from_str("default=noprint_wrappers=1:nokey=1"));
    r.push(String::from_str(path));
    proof {
        assert(args_view(r@) =~= spec_probe_duration_args(path@));
    }
    r
}

/// The video encoder: hardware-accelerated H.264, seeked to the start
/// timestamp, limited to the duration, keyframes forced every two seconds,
/// fragmented MP4 on standard output, no audio.
pub open spec fn spec_video_args(path: Seq<char>, start: Seq<char>, duration: Seq<char>) -> Seq<
    Seq<char>,
> {
    seq![
        "-v"@,
        "error"@,
        "-hwaccel"@,
        "cuda"@,
        "-hwaccel_output_format"@,
        "cuda"@,
        "-ss"@,
        start,
        "-i"@,
        path,
        "-t"@,
        duration,
        "-c:v"@,
        "h264_nvenc"@,
        "-crf"@,
        "20"@,
        "-vf"@,
        "scale_cuda=1920:1080:format=yuv420p"@,
        "-force_key_frames"@,
        "expr:gte(t,n_forced*2)"@,
        "-movflags"@,
        "frag_keyframe+empty_moov+faststart+default_base_moof"@,
        "-an"@,
        "-f"@,
        "mp4"@,
        "pipe:1"@,
    ]
}

/// Builds the video encoder's arguments.
pub fn video_args(path: &str, start: &str, duration: &str) -> (r: Vec<String>)
    ensures
        args_view(r@) == spec_video_args(path@, start@, duration@),
{
    let mut r: Vec<String> = Vec::new();
    r.push(String::from_str("-v"));
    r.push(String::from_str("error"));
    r.push(String::from_str("-hwaccel"));
    r.push(String::from_str("cuda"));
    r.push(String::from_str("-hwaccel_output_format"));
    r.push(String::from_str("cuda"));
    r.push(String::from_str("-ss"));
    r.push(String::from_str(start));
    r.push(String::from_str("-i"));
    r.push(String::from_str(path));
    r.push(String::from_str("-t"));
    r.push(String::from_str(duration));
    r.push(String::from_str("-c:v"));
    r.push(String::from_str("h264_nvenc"));
    r.push(String::from_str("-crf"));
    r.push(String::from_str("20"));
    r.push(String::from_str("-vf"));
    r.push(String::from_str("scale_cuda=1920:1080:format=yuv420p"));
    r.push(String::from_str("-force_key_frames"));
    r.push(String::from_str("expr:gte(t,n_forced*2)"));
    r.push(String::from_str("-movflags"));
    r.push(String::from_str("frag_keyframe+empty_moov+faststart+default_base_moof"));
    r.push(String::from_str("-an"));
    r.push(String::from_str("-f"));
    r.push(String::from_str("mp4"));
    r.push(String::from_str("pipe:1"));
    proof {
        assert(args_view(r@) =~= spec_video_args(path@, start@, duration@));
    }
    r
}

/// The audio encoder: AAC, two channels, one mapped audio stream, the same
/// seek, limit and fragmentation as the video encoder, no video.
pub open spec fn spec_audio_args(
    path: Seq<char>,
    id: u64,
    start: Seq<char>,
    duration: Seq<char>,
) -> Seq<Seq<char>> {
    seq![
        "-v"@,
        "error"@,
        "-hwaccel"@,
        "cuda"@,
        "-hwaccel_output_format"@,
        "cuda"@,
        "-ss"@,
        start,
        "-i"@,
        path,
        "-t"@,
        duration,
        "-c:a"@,
        "libfdk_aac"@,
        "-ac"@,
        "2"@,
        "-map"@,
        "0:a:"@ + spec_dec(id as nat),
        "-force_key_frames"@,
        "expr:gte(t,n_forced*2)"@,
        "-movflags"@,
        "frag_keyframe+empty_moov+faststart+default_base_moof"@,
        "-vn"@,
        "-f"@,
        "mp4"@,
        "pipe:1"@,
    ]
}

/// Builds the audio encoder's arguments for one audio track.
pub fn audio_args(path: &str, id: u64, start: &str, duration: &str) -> (r: Vec<String>)
    ensures
        args_view(r@) == spec_audio_args(path@, id, start@, duration@),
{
    let mut r: Vec<String> = Vec::new();
    r.push(String::from_str("-v"));
    r.push(String::from_str("error"));
    r.push(String::from_str("-hwaccel"));
    r.push(String::from_str("cuda"));
    r.push(String::from_str("-hwaccel_output_format"));
    r.push(String::from_str("cuda"));
    r.push(String::from_str("-ss"));
    r.push(String::from_str(start));
    r.push(String::from_str("-i"));
    r.push(String::from_str(path));
    r.push(String::from_str("-t"));
    r.push(String::from_str(duration));
    r.push(String::from_str("-c:a"));
    r.push(String::from_str("libfdk_aac"));
    r.push(String::from_str("-ac"));
    r.push(String::from_str("2"));
    r.push(String::from_str("-map"));
    let mut map_arg = String::from_str("0:a:");
    let n = u64_to_string(id);
    map_arg.append(n.as_str());
    r.push(map_arg);
    r.push(String::from_str("-force_key_frames"));
    r.push(String::from_str("expr:gte(t,n_forced*2)"));
    r.push(String::from_str("-movflags"));
    r.push(String::from_str("frag_keyframe+empty_moov+faststart+default_base_moof"));
    r.push(String::from_str("-vn"));
    r.push(String::from_str("-f"));
    r.push(String::from_str("mp4"));
    r.push(String::from_str("pipe:1"));
    proof {
        assert(args_view(r@) =~= spec_audio_args(path@, id, start@, duration@));
    }
    r
}

/// The subtitle encoder: seeked to the start timestamp, output timestamps
/// offset to the chunk's absolute timeline, WebVTT on standard output; an
/// embedded track maps one subtitle stream of the video, an external track
/// reads its sidecar file directly.
pub open spec fn spec_subtitle_args(
    source: Seq<char>,
    id: u64,
    external: bool,
    start: Seq<char>,
    duration: Seq<char>,
) -> Seq<Seq<char>> {
    let head = seq![
        "-v"@,
        "error"@,
        "-ss"@,
        start,
        "-i"@,
        source,
        "-output_ts_offset"@,
        start,
        "-t"@,
        duration,
    ];
    let map = if external {
        Seq::<Seq<char>>::empty()
    } else {
        seq!["-map"@, "0:s:"@ + spec_dec(id as nat)]
    };
    head + map + seq!["-c:s"@, "webvtt"@, "-f"@, "webvtt"@, "pipe:1"@]
}

/// Builds the subtitle encoder's arguments for one subtitle track.
pub fn subtitle_args(source: &str, id: u64, external: bool, start: &str, duration: &str) -> (r:
    Vec<String>)
    ensures
        args_view(r@) == spec_subtitle_args(source@, id, external, start@, duration@),
{
    let mut r: Vec<String> = Vec::new();
    r.push(String::from_str("-v"));
    r.push(String::from_str("error"));
    r.push(String::from_str("-ss"));
    r.push(String::from_str(start));
    r.push(String::from_str("-i"));
    r.push(String::from_str(source));
    r.push(String::from_str("-output_ts_offset"));
    r.push(String::from_str(start));
    r.push(String::from_str("-t"));
    r.push(String::from_str(duration));
    if !external {
        r.push(String::from_str("-map"));
        let mut map_arg = String::from_str("0:s:");
        let n = u64_to_string(id);
        map_arg.append(n.as_str());
        r.push(map_arg);
    }
    r.push(String::from_str("-c:s"));
    r.push(String::from_str("webvtt"));
    r.push(String::from_str("-f"));
    r.push(String::from_str("webvtt"));
    r.push(String::from_str("pipe:1"));
    proof {
        assert(args_view(r@) =~= spec_subtitle_args(source@, id, external, start@, duration@));
    }
    r
}

/// True when the file name carries the sidecar extension the subtitle
/// encoder reads.
pub open spec fn spec_is_srt_file(name: Seq<char>) -> bool {
    name.len() >= 5 && spec_ends_with(name, ".srt"@)
}

/// The sidecar subtitle file an external subtitle track is encoded from:
/// the last sibling file with the sidecar extension, if any.
pub open spec fn spec_select_srt(files: Seq<Seq<char>>) -> Option<Seq<char>>
    decreases files.len(),
{
    if files.len() == 0 {
        None
    } else if spec_is_srt_file(files.last()) {
        Some(files.last())
    } else {
        spec_select_srt(files.drop_last())
    }
}

/// Picks the sidecar subtitle file from the sibling file names.
pub fn select_external_subtitle(files: &Vec<String>) -> (r: Option<String>)
    ensures
        match r {
            Option::Some(name) => spec_select_srt(crate::probe::names_view(files@)) == Some(
                name@,
            ),
            Option::None => spec_select_srt(crate::probe::names_view(files@)) is None,
        },
{
    let ghost names = crate::probe::names_view(files@);
    let mut best: Option<String> = None;
    let mut i: usize = 0;
    proof {
        assert(names.take(0) =~= Seq::<Seq<char>>::empty());
    }
    while i < files.len()
        invariant
            i <= files@.len(),
            names == crate::probe::names_view(files@),
            match best {
                Option::Some(name) => spec_select_srt(names.take(i as int)) == Some(name@),
                Option::None => spec_select_srt(names.take(i as int)) is None,
            },
        decreases files@.len() - i,
    {
        let name = &files[i];
        proof {
            assert(names.take(i + 1).last() == names[i as int]);
            assert(names.take(i + 1).drop_last() =~= names.take(i as int));
        }
        if name.unicode_len() >= 5 && str_ends_with(name.as_str(), ".srt") {
            best = Some(name.clone());
        }
        i = i + 1;
    }
    proof {
        assert(names.take(names.len() as int) =~= names);
    }
    best
}

} // verus!
