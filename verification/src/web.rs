//! Trusted boundary around the `url` crate: joining, path access and path
//! segment edits, each named as a function of its text arguments alone, plus
//! the form-style percent decoding of one href.

use vstd::prelude::*;

use crate::bytes::text_bytes;

verus! {

/// The URL text of `href` resolved against the absolute URL `base`, per
/// `Url::parse(base)` followed by `Url::join(href)`; `None` when either step
/// fails.
pub uninterp spec fn joined_url(base: Seq<u8>, href: Seq<u8>) -> Option<Seq<u8>>;

/// Relies on `url::Url::parse` and `url::Url::join`: RFC 3986 reference
/// resolution of `href` against `base`.
#[verifier::external_body]
pub fn url_join(base: &str, href: &str) -> (r: Option<String>)
    ensures
        match r {
            Some(u) => joined_url(text_bytes(base@), text_bytes(href@)) == Some(text_bytes(u@)),
            None => joined_url(text_bytes(base@), text_bytes(href@)) is None,
        },
{
    let b = url::Url::parse(base).ok()?;
    let j = b.join(href).ok()?;
    Some(j.to_string())
}

/// The path component of the URL `u`, per `Url::parse(u)` and `Url::path`;
/// `None` when `u` does not parse.
pub uninterp spec fn url_path_of(u: Seq<u8>) -> Option<Seq<u8>>;

/// Relies on `url::Url::path`: the path component of a parsed URL.
#[verifier::external_body]
pub fn url_path(u: &str) -> (r: Option<String>)
    ensures
        match r {
            Some(p) => url_path_of(text_bytes(u@)) == Some(text_bytes(p@)),
            None => url_path_of(text_bytes(u@)) is None,
        },
{
    let parsed = url::Url::parse(u).ok()?;
    Some(parsed.path().to_string())
}

/// The URL `u` with its path component replaced by `p`, per `Url::set_path`;
/// `None` when `u` does not parse.
pub uninterp spec fn url_with_path_of(u: Seq<u8>, p: Seq<u8>) -> Option<Seq<u8>>;

/// Relies on `url::Url::set_path`: replace the path component.
#[verifier::external_body]
pub fn url_set_path(u: &str, p: &str) -> (r: Option<String>)
    ensures
        match r {
            Some(v) => url_with_path_of(text_bytes(u@), text_bytes(p@)) == Some(text_bytes(v@)),
            None => url_with_path_of(text_bytes(u@), text_bytes(p@)) is None,
        },
{
    let mut parsed = url::Url::parse(u).ok()?;
    parsed.set_path(p);
    Some(parsed.to_string())
}

/// The URL `u` with its last path segment removed, per
/// `Url::path_segments_mut` and `PathSegmentsMut::pop` (a no-op on a bare
/// root path); `None` when `u` does not parse or cannot carry segments.
pub uninterp spec fn url_popped(u: Seq<u8>) -> Option<Seq<u8>>;

/// Relies on `url::PathSegmentsMut::pop`: drop the last path segment.
#[verifier::external_body]
pub fn url_pop_segment(u: &str) -> (r: Option<String>)
    ensures
        match r {
            Some(v) => url_popped(text_bytes(u@)) == Some(text_bytes(v@)),
            None => url_popped(text_bytes(u@)) is None,
        },
{
    let mut parsed = url::Url::parse(u).ok()?;
    parsed.path_segments_mut().ok()?.pop();
    Some(parsed.to_string())
}

/// The URL `u` with an empty path segment appended (a trailing slash), per
/// `PathSegmentsMut::push("")`; `None` when `u` does not parse or cannot
/// carry segments.
pub uninterp spec fn url_pushed_empty(u: Seq<u8>) -> Option<Seq<u8>>;

/// Relies on `url::PathSegmentsMut::push`: append an empty segment.
#[verifier::external_body]
pub fn url_push_empty_segment(u: &str) -> (r: Option<String>)
    ensures
        match r {
            Some(v) => url_pushed_empty(text_bytes(u@)) == Some(text_bytes(v@)),
            None => url_pushed_empty(text_bytes(u@)) is None,
        },
{
    let mut parsed = url::Url::parse(u).ok()?;
    parsed.path_segments_mut().ok()?.push("");
    Some(parsed.to_string())
}

/// The last path segment of the URL `u`, per `Url::path_segments`; `None`
/// when `u` does not parse or has no segments.
pub uninterp spec fn url_last_segment_of(u: Seq<u8>) -> Option<Seq<u8>>;

/// Relies on `url::Url::path_segments`: the last path segment.
#[verifier::external_body]
pub fn url_last_segment(u: &str) -> (r: Option<String>)
    ensures
        match r {
            Some(v) => url_last_segment_of(text_bytes(u@)) == Some(text_bytes(v@)),
            None => url_last_segment_of(text_bytes(u@)) is None,
        },
{
    let parsed = url::Url::parse(u).ok()?;
    let last = parsed.path_segments()?.next_back()?;
    Some(last.to_string())
}

/// The text of `href` read as form-encoded pairs with the keys and values
/// decoded and concatenated, per `url::form_urlencoded::parse`.
pub uninterp spec fn form_decoded(href: Seq<u8>) -> Seq<u8>;

/// Relies on `url::form_urlencoded::parse`: percent-decode an href by
/// reading it as form pairs and gluing each key to its value.
#[verifier::external_body]
pub fn form_decode(href: &str) -> (r: String)
    ensures
        text_bytes(r@) == form_decoded(text_bytes(href@)),
{
    url::form_urlencoded::parse(href.as_bytes()).map(|(k, v)| [k, v].concat()).collect()
}

} // verus!
