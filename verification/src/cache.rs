//! The on-disk cache around the external movie-database API: the seven-day
//! freshness rule, the cache file and image keys, the image URL, and the
//! query parameters of an API call.

use vstd::prelude::*;

use crate::text::spec_dec;
use crate::text::spec_replace;
use crate::text::replace_char;
use crate::text::u64_to_string;

verus! {

/// Maximum age, in seconds, before a cached entry must be refetched.
pub const CACHE_MAX_AGE_SECS: u64 = 7 * 24 * 60 * 60;

/// A cached entry is fresh exactly when its age is within the seven-day limit.
pub fn cache_is_fresh(age_secs: u64) -> (r: bool)
    ensures
        r == (age_secs <= CACHE_MAX_AGE_SECS),
{
    age_secs <= CACHE_MAX_AGE_SECS
}

/// What a cache lookup decides: serve the cached bytes, or fetch from the
/// remote API and rewrite the entry.
#[derive(Clone, Copy, Debug, PartialEq, Eq, Structural)]
pub enum CacheAction {
    UseCache,
    Refetch,
}

/// The decision of one cache read: the cached entry is served exactly when
/// it exists and is at most seven days old.
pub open spec fn spec_cache_decision(entry_exists: bool, age_secs: u64) -> CacheAction {
    if entry_exists && age_secs <= CACHE_MAX_AGE_SECS {
        CacheAction::UseCache
    } else {
        CacheAction::Refetch
    }
}

/// Decides one cache read from the entry's existence and age.
pub fn cache_decision(entry_exists: bool, age_secs: u64) -> (r: CacheAction)
    ensures
        r == spec_cache_decision(entry_exists, age_secs),
{
    if entry_exists && cache_is_fresh(age_secs) {
        CacheAction::UseCache
    } else {
        CacheAction::Refetch
    }
}

/// Law: a read that misses fetches from the remote API; a second read of the
/// same entry within seven days of that fetch serves the written bytes and
/// fetches nothing.
pub proof fn lemma_second_read_uses_cache(age_secs: u64)
    requires
        age_secs <= CACHE_MAX_AGE_SECS,
    ensures
        spec_cache_decision(false, age_secs) == CacheAction::Refetch,
        spec_cache_decision(true, age_secs) == CacheAction::UseCache,
{
}

/// The cache file name of one per-item API response: `<kind>_<id>.json`.
pub fn cache_file_name(kind: &str, id: &str) -> (r: String)
    ensures
        r@ == kind@ + "_"@ + id@ + ".json"@,
{
    let mut r = String::from_str(kind);
    r.append("_");
    r.append(id);
    r.append(".json");
    r
}

/// The cache key of one image: `<size>_<path>` with every slash of the path
/// flattened to an underscore.
pub fn image_cache_key(size: &str, path: &str) -> (r: String)
    ensures
        r@ == size@ + "_"@ + spec_replace(path@, '/', '_'),
{
    let mut r = String::from_str(size);
    r.append("_");
    let flattened = replace_char(path, '/', '_');
    r.append(flattened.as_str());
    r
}

/// The cache key of one placeholder image:
/// `placeholder_<w>x<h>_<text>.png` with every space of the text written as
/// a dash.
pub fn placeholder_cache_key(width: u32, height: u32, text: &str) -> (r: String)
    ensures
        r@ == "placeholder_"@ + spec_dec(width as nat) + "x"@ + spec_dec(height as nat) + "_"@
            + spec_replace(text@, ' ', '-') + ".png"@,
{
    let mut r = String::from_str("placeholder_");
    let w = u64_to_string(width as u64);
    r.append(w.as_str());
    r.append("x");
    let h = u64_to_string(height as u64);
    r.append(h.as_str());
    r.append("_");
    let t = replace_char(text, ' ', '-');
    r.append(t.as_str());
    r.append(".png");
    r
}

/// The URL a placeholder image is fetched from:
/// `https://via.placeholder.com/<w>x<h>?text=<text>`.
pub fn placeholder_url(width: u32, height: u32, text: &str) -> (r: String)
    ensures
        r@ == "https://via.placeholder.com/"@ + spec_dec(width as nat) + "x"@ + spec_dec(
            height as nat,
        ) + "?text="@ + text@,
{
    let mut r = String::from_str("https://via.placeholder.com/");
    let w = u64_to_string(width as u64);
    r.append(w.as_str());
    r.append("x");
    let h = u64_to_string(height as u64);
    r.append(h.as_str());
    r.append("?text=");
    r.append(text);
    r
}

/// The URL of an image: `<base>/<size>/<path>`; an empty path gives an empty
/// URL.
pub fn image_url(base: &str, size: &str, path: &str) -> (r: String)
    ensures
        path@.len() == 0 ==> r@ == Seq::<char>::empty(),
        path@.len() != 0 ==> r@ == base@ + "/"@ + size@ + "/"@ + path@,
{
    if path.unicode_len() == 0 {
        String::new()
    } else {
        let mut r = String::from_str(base);
        r.append("/");
        r.append(size);
        r.append("/");
        r.append(path);
        r
    }
}

/// The query parameters of one API call: the key always goes first, as
/// `api_key`, and the caller's parameters follow unchanged, in order.
pub fn build_query_params(api_key: &str, params: Vec<(String, String)>) -> (r: Vec<
    (String, String),
>)
    ensures
        r@.len() == params@.len() + 1,
        r@[0].0@ == "api_key"@,
        r@[0].1@ == api_key@,
        forall|i: int| 0 <= i < params@.len() ==> r@[i + 1] == #[trigger] params@[i],
{
    let mut r: Vec<(String, String)> = Vec::new();
    r.push((String::from_str("api_key"), String::from_str(api_key)));
    let mut rest = params;
    r.append(&mut rest);
    r
}

/// The image path with one leading slash removed, if it has one.
pub fn strip_leading_slash(path: &str) -> (r: String)
    ensures
        path@.len() > 0 && path@[0] == '/' ==> r@ == path@.skip(1),
        !(path@.len() > 0 && path@[0] == '/') ==> r@ == path@,
{
    let n = path.unicode_len();
    if n > 0 && path.get_char(0) == '/' {
        let rest = path.substring_char(1, n);
        String::from_str(rest)
    } else {
        String::from_str(path)
    }
}

} // verus!
