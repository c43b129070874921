use nexusflix::cache::{
    build_query_params, cache_decision, cache_file_name, cache_is_fresh, image_cache_key,
    image_url, placeholder_cache_key, placeholder_url, strip_leading_slash, CacheAction,
    CACHE_MAX_AGE_SECS,
};
use nexusflix::files::{default_config, file_list, mime_or_default, sort_by_file_name, FileData};
use nexusflix::library::{WatchHistory, WatchMap};
use nexusflix::server::{metadata_error_body, video_error_body};
use nexusflix::text::{contains_substring, replace_char, u64_to_string};

fn record(id: &str, watched: f64, total: f64, ts: u64) -> WatchHistory {
    WatchHistory {
        media_id: String::from(id),
        watched_duration_bits: watched.to_bits(),
        total_duration_bits: total.to_bits(),
        last_watched_timestamp: ts,
    }
}

#[test]
fn upsert_same_record_twice_is_idempotent() {
    let mut m = WatchMap::new();
    let w = record("x", 30.0, 100.0, 1);
    m.upsert(w.clone());
    let after_one = m.entries.clone();
    m.upsert(w);
    assert_eq!(m.entries, after_one);
    assert_eq!(m.len(), 1);
}

#[test]
fn upsert_replaces_record_with_same_id() {
    let mut m = WatchMap::new();
    m.upsert(record("x", 30.0, 100.0, 1));
    m.upsert(record("y", 5.0, 50.0, 2));
    m.upsert(record("x", 60.0, 100.0, 3));
    assert_eq!(m.len(), 2);
    let x = m.get("x").expect("x is present");
    assert_eq!(f64::from_bits(x.watched_duration_bits), 60.0);
    assert_eq!(x.last_watched_timestamp, 3);
    // insertion order is kept
    assert_eq!(m.entries[0].media_id, "x");
    assert_eq!(m.entries[1].media_id, "y");
}

#[test]
fn get_or_default_synthesizes_zero_record() {
    let m = WatchMap::new();
    let w = m.get_or_default("nothing");
    assert_eq!(w.media_id, "nothing");
    assert_eq!(f64::from_bits(w.watched_duration_bits), 0.0);
    assert_eq!(f64::from_bits(w.total_duration_bits), 0.0);
    assert_eq!(w.last_watched_timestamp, 0);
    assert!(m.get("nothing").is_none());
}

#[test]
fn cache_freshness_boundary() {
    assert!(cache_is_fresh(0));
    assert!(cache_is_fresh(CACHE_MAX_AGE_SECS));
    assert!(!cache_is_fresh(CACHE_MAX_AGE_SECS + 1));
    assert_eq!(CACHE_MAX_AGE_SECS, 7 * 24 * 60 * 60);
}

#[test]
fn second_read_within_window_uses_cache() {
    // first read: no entry yet, so the remote API is fetched
    assert_eq!(cache_decision(false, 0), CacheAction::Refetch);
    // second read of the written entry within seven days: no fetch
    assert_eq!(cache_decision(true, 3600), CacheAction::UseCache);
    // a stale entry is refetched
    assert_eq!(cache_decision(true, CACHE_MAX_AGE_SECS + 1), CacheAction::Refetch);
}

#[test]
fn cache_file_names() {
    assert_eq!(cache_file_name("movie", "42"), "movie_42.json");
    assert_eq!(cache_file_name("tv", "1399"), "tv_1399.json");
}

#[test]
fn image_cache_key_flattens_slashes() {
    assert_eq!(image_cache_key("w500", "/abc/def.jpg"), "w500__abc_def.jpg");
    assert_eq!(image_cache_key("original", "poster.jpg"), "original_poster.jpg");
}

#[test]
fn placeholder_key_dashes_spaces() {
    assert_eq!(
        placeholder_cache_key(300, 450, "No Image"),
        "placeholder_300x450_No-Image.png"
    );
}

#[test]
fn placeholder_url_formats() {
    assert_eq!(
        placeholder_url(300, 450, "No Image"),
        "https://via.placeholder.com/300x450?text=No Image"
    );
}

#[test]
fn image_url_formats() {
    assert_eq!(image_url("https://img.example/t/p", "w500", "a.jpg"), "https://img.example/t/p/w500/a.jpg");
    assert_eq!(image_url("https://img.example/t/p", "w500", ""), "");
}

#[test]
fn query_params_lead_with_api_key() {
    let params = vec![
        (String::from("query"), String::from("dune")),
        (String::from("page"), String::from("2")),
    ];
    let q = build_query_params("SECRET-REDACTED", params);
    assert_eq!(q.len(), 3);
    assert_eq!(q[0], (String::from("api_key"), String::from("SECRET-REDACTED")));
    assert_eq!(q[1], (String::from("query"), String::from("dune")));
    assert_eq!(q[2], (String::from("page"), String::from("2")));
}

#[test]
fn strip_leading_slash_once() {
    assert_eq!(strip_leading_slash("/poster.jpg"), "poster.jpg");
    assert_eq!(strip_leading_slash("poster.jpg"), "poster.jpg");
    assert_eq!(strip_leading_slash("//double"), "/double");
    assert_eq!(strip_leading_slash(""), "");
}

fn file(name: &str) -> FileData {
    FileData {
        file_name: String::from(name),
        file_path: format!("/root/{name}"),
        date_modified: 0,
        mime_type: String::from("video/x-matroska"),
        file_size: 1,
    }
}

#[test]
fn files_sort_by_name() {
    let sorted = sort_by_file_name(vec![file("beta.mkv"), file("alpha.mkv"), file("gamma.mkv")]);
    let names: Vec<&str> = sorted.iter().map(|f| f.file_name.as_str()).collect();
    assert_eq!(names, vec!["alpha.mkv", "beta.mkv", "gamma.mkv"]);
}

#[test]
fn file_list_sorts_within_each_root() {
    let series = vec![file("s2.mkv"), file("s1.mkv")];
    let movies = vec![file("m2.mkv"), file("m1.mkv")];
    let all = file_list(series, movies);
    let names: Vec<&str> = all.iter().map(|f| f.file_name.as_str()).collect();
    assert_eq!(names, vec!["s1.mkv", "s2.mkv", "m1.mkv", "m2.mkv"]);
}

#[test]
fn mime_default_is_octet_stream() {
    assert_eq!(mime_or_default(Some(String::from("video/mp4"))), "video/mp4");
    assert_eq!(mime_or_default(None), "application/octet-stream");
}

#[test]
fn default_config_points_both_roots_at_dir() {
    let c = default_config("/home/user/Videos");
    assert_eq!(c.series_root, "/home/user/Videos");
    assert_eq!(c.movies_root, "/home/user/Videos");
}

#[test]
fn decimal_formatting() {
    assert_eq!(u64_to_string(0), "0");
    assert_eq!(u64_to_string(7), "7");
    assert_eq!(u64_to_string(10), "10");
    assert_eq!(u64_to_string(12345), "12345");
    assert_eq!(u64_to_string(u64::MAX), "18446744073709551615");
}

#[test]
fn substring_search() {
    assert!(contains_substring("hdmv_pgs_subtitle", "pgs"));
    assert!(contains_substring("abc", ""));
    assert!(!contains_substring("abc", "abcd"));
    assert!(!contains_substring("dvb", "dvbsub"));
}

#[test]
fn character_replacement() {
    assert_eq!(replace_char("a b c", ' ', '-'), "a-b-c");
    assert_eq!(replace_char("none", 'x', 'y'), "none");
    assert_eq!(replace_char("", '/', '_'), "");
}

#[test]
fn error_bodies_carry_their_prefix() {
    let body = video_error_body("No such file or directory");
    assert!(body.starts_with("Video data error:"));
    assert_eq!(body, "Video data error: No such file or directory");
    assert_eq!(metadata_error_body("boom"), "Video metadata error: boom");
}
