//! One search result page, whichever source it came from, and the short
//! error codes every source shares.

use vstd::prelude::*;

verus! {

#[derive(Debug, Clone, PartialEq, Eq)]
pub struct WallpaperItem {
    /// Prefixed per source (`w-`, `u-`, `p-`), so ids never collide.
    pub id: String,
    pub resolution: String,
    pub thumb_url: String,
    pub full_url: String,
}

#[derive(Debug, Clone, PartialEq, Eq)]
pub struct SearchPage {
    pub items: Vec<WallpaperItem>,
    pub page: u32,
    pub last_page: u32,
}

/// A request that never reached the server reads as offline; anything else
/// that went wrong in transport is a bad response.
pub open spec fn transport_code_spec(connect: bool, timeout: bool, request: bool) -> Seq<char> {
    if connect || timeout || request { "offline"@ } else { "bad_response"@ }
}

pub fn transport_code(connect: bool, timeout: bool, request: bool) -> (r: String)
    ensures
        r@ == transport_code_spec(connect, timeout, request),
{
    if connect || timeout || request {
        "offline".to_owned()
    } else {
        "bad_response".to_owned()
    }
}

pub open spec fn opt_string(o: Option<String>) -> Option<Seq<char>> {
    match o {
        Some(s) => Some(s@),
        None => None,
    }
}

/// A download's HTTP status: rate limited, failed, or fine.
pub open spec fn download_status_spec(status: u16) -> Option<Seq<char>> {
    if status == 429 {
        Some("rate_limited"@)
    } else if !(200 <= status < 300) {
        Some("download_failed"@)
    } else {
        None
    }
}

pub fn download_status(status: u16) -> (r: Option<String>)
    ensures
        opt_string(r) == download_status_spec(status),
{
    if status == 429 {
        Some("rate_limited".to_owned())
    } else if !(200 <= status && status < 300) {
        Some("download_failed".to_owned())
    } else {
        None
    }
}

} // verus!
