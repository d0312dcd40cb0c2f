use std::path::PathBuf;
use vstd::prelude::*;

use crate::error::AppError;
use crate::text::text_equal;
use crate::util::{parse_url, url_parts};

verus! {

pub const STATE_VERSION: u64 = 1;

pub const MAX_ITEMS_PER_FEED: usize = 200;

pub const RETENTION_DAYS: i64 = 7;

pub const FETCH_CONCURRENCY: usize = 50;

pub const FETCH_RETRIES: usize = 3;

pub const BASE_DISCOVERY_URL: &'static str = "https://hacker-news.firebaseio.com";

pub const HN_ITEM_URL_PREFIX: &'static str = "https://news.ycombinator.com/item?id=";

pub const HN_HOME_URL: &'static str = "https://news.ycombinator.com";

pub const REPOSITORY_URL: &'static str = "https://github.com/ysm-dev/hn-scored";

/// The score thresholds, one family of feeds each, in ascending order.
pub const THRESHOLDS: [u16; 16] = [
    0, 50, 100, 150, 200, 250, 300, 350, 400, 450, 500, 600, 700, 800, 900, 1000,
];

pub open spec fn threshold_list() -> Seq<u16> {
    seq![0u16, 50, 100, 150, 200, 250, 300, 350, 400, 450, 500, 600, 700, 800, 900, 1000]
}

pub open spec fn is_threshold(t: u16) -> bool {
    threshold_list().contains(t)
}

/// The seconds in the retention window of a threshold crossing.
pub open spec fn retention_seconds() -> int {
    RETENTION_DAYS * 86400
}

/// What the program runs with.
#[derive(Debug)]
pub struct AppConfig {
    pub state_path: PathBuf,
    pub output_dir: PathBuf,
    pub base_url: String,
    pub api_base_url: String,
}

/// The base URL without one trailing `/`.
pub open spec fn trimmed_base_url(input: Seq<char>) -> Seq<char> {
    if input.len() > 0 && input.last() == '/' {
        input.drop_last()
    } else {
        input
    }
}

/// Whether the trimmed base URL is an absolute `http` or `https` URL with a
/// host, as the url crate reads it.
pub open spec fn acceptable_base_url(trimmed: Seq<char>) -> bool {
    match url_parts(trimmed) {
        Some((scheme, host, _, _)) => (scheme == "http"@ || scheme == "https"@) && host is Some,
        None => false,
    }
}

/// Checks `--base-url` and removes one trailing `/`.
pub fn normalize_base_url(input: &str) -> (r: Result<String, AppError>)
    ensures
        r is Ok <==> acceptable_base_url(trimmed_base_url(input@)),
        r matches Ok(s) ==> s@ == trimmed_base_url(input@),
        r matches Err(e) ==> e matches AppError::InvalidBaseUrl(s) && s@ == input@,
{
    let n = input.unicode_len();
    let trimmed = if n > 0 && input.get_char(n - 1) == '/' {
        input.substring_char(0, n - 1)
    } else {
        input
    };
    assert(trimmed@ =~= trimmed_base_url(input@));
    match parse_url(trimmed) {
        Some(parts) => {
            let http = text_equal(parts.scheme.as_str(), "http");
            let https = text_equal(parts.scheme.as_str(), "https");
            if !(http || https) || parts.host.is_none() {
                Err(AppError::InvalidBaseUrl(String::from_str(input)))
            } else {
                Ok(String::from_str(trimmed))
            }
        },
        None => Err(AppError::InvalidBaseUrl(String::from_str(input))),
    }
}

/// The `--base-url` check, with the error as its message.
pub fn parse_base_url(value: &str) -> (r: Result<String, String>)
    ensures
        r is Ok <==> acceptable_base_url(trimmed_base_url(value@)),
        r matches Ok(s) ==> s@ == trimmed_base_url(value@),
        r matches Err(m) ==> m@ == "invalid base URL: "@ + value@,
{
    match normalize_base_url(value) {
        Ok(s) => Ok(s),
        Err(e) => Err(e.message()),
    }
}

} // verus!
