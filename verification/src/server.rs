//! The HTTP surface's request records and the bodies of its error replies.

use vstd::prelude::*;

verus! {

/// The query of a chunk request, as its raw text fields: the source path and
/// the optional start timestamp and duration, each the decimal text the
/// client sent.
#[derive(Clone, Debug)]
pub struct VideoRequest {
    pub path: String,
    pub timestamp: Option<String>,
    pub duration: Option<String>,
}

/// The query of a metadata request: the source path.
#[derive(Clone, Debug)]
pub struct VideoMetadataRequest {
    pub path: String,
}

/// The query of a directory-browse request: the directory to list, or none
/// for the user's home directory.
#[derive(Clone, Debug)]
pub struct BrowseRequest {
    pub path: Option<String>,
}

/// The body of a failed chunk request: "Video data error: " and the reason.
pub fn video_error_body(reason: &str) -> (r: String)
    ensures
        r@ == "Video data error: "@ + reason@,
{
    let mut r = String::from_str("Video data error: ");
    r.append(reason);
    r
}

/// The body of a failed metadata request: "Video metadata error: " and the
/// reason.
pub fn metadata_error_body(reason: &str) -> (r: String)
    ensures
        r@ == "Video metadata error: "@ + reason@,
{
    let mut r = String::from_str("Video metadata error: ");
    r.append(reason);
    r
}

} // verus!
