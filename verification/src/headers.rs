//! What is read from and written to HTTP headers.
//!
//! On the way out: static assets may be cached for a long time; everything else
//! gets a content security policy, and answers of the API are not to be cached;
//! a fixed set of protective headers goes on every response. On the way in: the
//! address of the client is taken from what a proxy reports.

use crate::text::{chars_of, contains, contains_chars, matches_at, occurs_at};
use vstd::prelude::*;

verus! {

/// `text` starts with `prefix`.
pub open spec fn starts_with(text: Seq<char>, prefix: Seq<char>) -> bool {
    occurs_at(text, prefix, 0)
}

/// The path names a static asset.
pub open spec fn is_static_asset(path: Seq<char>) -> bool {
    ||| starts_with(path, "/assets/"@)
    ||| contains(path, ".js"@)
    ||| contains(path, ".css"@)
    ||| contains(path, ".ico"@)
}

/// The path belongs to the API.
pub open spec fn is_api_path(path: Seq<char>) -> bool {
    starts_with(path, "/api/"@)
}

/// How long a static asset may be cached.
pub open spec fn asset_cache_control() -> Seq<char> {
    "public, max-age=31536000, immutable"@
}

/// The cache rule for answers of the API.
pub open spec fn api_cache_control() -> Seq<char> {
    "no-store, no-cache, must-revalidate"@
}

/// The content security policy for everything but static assets.
pub open spec fn content_security_policy() -> Seq<char> {
    "default-src 'self' 'unsafe-inline' 'unsafe-eval' data: https: http:; script-src 'self' 'unsafe-inline' 'unsafe-eval' https: http:; img-src 'self' data: blob: https: http:; style-src 'self' 'unsafe-inline' https: http:; connect-src 'self' ws: wss: https: http:; font-src 'self' data: https: http:; frame-ancestors 'none'"@
}

/// The headers that depend on the path, as pairs of name and value.
pub open spec fn path_headers(path: Seq<char>) -> Seq<(Seq<char>, Seq<char>)> {
    if is_static_asset(path) {
        seq![("cache-control"@, asset_cache_control())]
    } else if is_api_path(path) {
        seq![
            ("content-security-policy"@, content_security_policy()),
            ("cache-control"@, api_cache_control()),
        ]
    } else {
        seq![("content-security-policy"@, content_security_policy())]
    }
}

/// The headers that go on every response, as pairs of name and value.
pub open spec fn common_headers() -> Seq<(Seq<char>, Seq<char>)> {
    seq![
        ("x-xss-protection"@, "1; mode=block"@),
        ("x-content-type-options"@, "nosniff"@),
        ("x-frame-options"@, "DENY"@),
        ("referrer-policy"@, "strict-origin-when-cross-origin"@),
        ("x-dns-prefetch-control"@, "on"@),
    ]
}

/// The headers to set on the response to a request for `path`, in the order in
/// which they are set.
pub open spec fn security_headers(path: Seq<char>) -> Seq<(Seq<char>, Seq<char>)> {
    path_headers(path) + common_headers()
}

/// The pairs of `headers` as sequences.
pub open spec fn pairs_of(headers: Seq<(String, String)>) -> Seq<(Seq<char>, Seq<char>)> {
    Seq::new(headers.len(), |i: int| (headers[i].0@, headers[i].1@))
}

/// The headers to set on the response to a request for `path`: name and value
/// of each, in the order in which they are to be set.
pub fn add_security_headers(path: &str) -> (headers: Vec<(String, String)>)
    ensures
        pairs_of(headers@) == security_headers(path@),
{
    let text = chars_of(path);
    let mut headers: Vec<(String, String)> = Vec::new();
    let is_asset = matches_at(&text, &chars_of("/assets/"), 0) || contains_chars(
        &text,
        &chars_of(".js"),
    ) || contains_chars(&text, &chars_of(".css")) || contains_chars(&text, &chars_of(".ico"));
    if is_asset {
        headers.push(("cache-control".to_owned(), "public, max-age=31536000, immutable".to_owned()));
    } else {
        headers.push(
            (
                "content-security-policy".to_owned(),
                "default-src 'self' 'unsafe-inline' 'unsafe-eval' data: https: http:; script-src 'self' 'unsafe-inline' 'unsafe-eval' https: http:; img-src 'self' data: blob: https: http:; style-src 'self' 'unsafe-inline' https: http:; connect-src 'self' ws: wss: https: http:; font-src 'self' data: https: http:; frame-ancestors 'none'".to_owned(),
            ),
        );
        if matches_at(&text, &chars_of("/api/"), 0) {
            headers.push(
                ("cache-control".to_owned(), "no-store, no-cache, must-revalidate".to_owned()),
            );
        }
    }
    assert(pairs_of(headers@) =~= path_headers(path@));
    let ghost first = headers@;
    headers.push(("x-xss-protection".to_owned(), "1; mode=block".to_owned()));
    headers.push(("x-content-type-options".to_owned(), "nosniff".to_owned()));
    headers.push(("x-frame-options".to_owned(), "DENY".to_owned()));
    headers.push(("referrer-policy".to_owned(), "strict-origin-when-cross-origin".to_owned()));
    headers.push(("x-dns-prefetch-control".to_owned(), "on".to_owned()));
    assert(pairs_of(headers@) =~= pairs_of(first) + common_headers());
    headers
}

/// The address of the client: what `x-forwarded-for` names, or else what
/// `x-real-ip` names. Each argument is the value of that header where the
/// request has it and it is readable text.
pub fn client_address(forwarded_for: Option<String>, real_ip: Option<String>) -> (address: Option<
    String,
>)
    ensures
        address == match forwarded_for {
            Some(first) => Some(first),
            None => real_ip,
        },
{
    match forwarded_for {
        Some(first) => Some(first),
        None => real_ip,
    }
}

} // verus!
