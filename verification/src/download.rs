//! The decisions of a bounded HTTP download, apart from the transfer itself:
//! which addresses may be fetched, which responses are accepted, and when a
//! body is too large.

use vstd::prelude::*;
use vstd::string::StringSliceAdditionalSpecFns;

use crate::discovery::{lowercase_ascii, lowercase_ascii_bytes};
use crate::extract::ExtractError;
use crate::lines::{parse_u64, parsed_u64};
use crate::text::{bytes_eq, concat_str, debug_quoted, has_prefix_at, starts_with_at, utf8};

verus! {

/// Seconds a request may take.
pub const HTTP_TIMEOUT_SECONDS: u64 = 30;

/// Redirects a request may follow.
pub const HTTP_MAX_REDIRECTS: usize = 5;

/// Bytes the response headers may take.
pub const HTTP_MAX_HEADERS_BYTES: usize = 32768;

/// Only `https://` and `http://` addresses are fetched.
pub open spec fn fetchable_url(url: Seq<char>) -> bool {
    has_prefix_at(utf8(url), 0, utf8("https://"@)) || has_prefix_at(utf8(url), 0, utf8("http://"@))
}

/// Refuse an address before any I/O unless it is HTTP(S).
pub fn check_download_url(url: &str) -> (result: Result<(), ExtractError>)
    ensures
        result is Ok <==> fetchable_url(url@),
        result matches Err(error) ==> error is InvalidReleaseResponse,
{
    let https = "https://";
    let http = "http://";
    if starts_with_at(url.as_bytes(), 0, https.as_bytes()) || starts_with_at(url.as_bytes(), 0, http.as_bytes()) {
        return Ok(());
    }
    let quoted = debug_quoted(url);
    Err(ExtractError::InvalidReleaseResponse(concat_str("unsupported URL scheme in ", quoted.as_str())))
}

/// What `usize::from_str` accepts: an optional `+`, then decimal digits whose value fits.
pub open spec fn parsed_usize(bytes: Seq<u8>) -> Option<usize> {
    match parsed_u64(bytes) {
        Some(value) => if value <= usize::MAX {
            Some(value as usize)
        } else {
            None
        },
        None => None,
    }
}

/// The value of the first header named `content-length` in any ASCII case,
/// when it parses as a length.
pub open spec fn content_length_spec(headers: Seq<(Seq<char>, Seq<char>)>) -> Option<usize>
    decreases headers.len(),
{
    if headers.len() == 0 {
        None
    } else if lowercase_ascii(utf8(headers[0].0)) == utf8("content-length"@) {
        parsed_usize(utf8(headers[0].1))
    } else {
        content_length_spec(headers.drop_first())
    }
}

/// Headers by their texts.
pub open spec fn header_views(headers: Seq<(String, String)>) -> Seq<(Seq<char>, Seq<char>)> {
    headers.map_values(|h: (String, String)| (h.0@, h.1@))
}

/// The declared length of a response body, from its headers.
pub fn response_content_length(headers: &Vec<(String, String)>) -> (length: Option<usize>)
    ensures
        length == content_length_spec(header_views(headers@)),
{
    let ghost views = header_views(headers@);
    let mut i: usize = 0;
    assert(views.skip(0) =~= views);
    while i < headers.len()
        invariant
            i <= headers@.len(),
            views == header_views(headers@),
            content_length_spec(views) == content_length_spec(views.skip(i as int)),
        decreases headers@.len() - i,
    {
        assert(views.skip(i as int)[0] == (headers@[i as int].0@, headers@[i as int].1@));
        assert(views.skip(i as int).drop_first() =~= views.skip(i + 1));
        let key = headers[i].0.as_str();
        let key_bytes = key.as_bytes();
        assert(key_bytes@ == utf8(headers@[i as int].0@));
        let lower = lowercase_ascii_bytes(key_bytes);
        let name = "content-length";
        let name_bytes = name.as_bytes();
        assert(name_bytes@ == utf8("content-length"@));
        let same = bytes_eq(lower.as_slice(), name_bytes);
        assert(same == (lowercase_ascii(utf8(views.skip(i as int)[0].0)) == utf8("content-length"@)));
        if same {
            assert(utf8(headers@[i as int].1@) == utf8(views.skip(i as int)[0].1));
            return match parse_u64(headers[i].1.as_str()) {
                Some(value) => if value <= usize::MAX as u64 {
                    Some(value as usize)
                } else {
                    None
                },
                None => None,
            };
        }
        i = i + 1;
    }
    None
}

/// Accept a response by its status and declared length: a status outside
/// 200–299 is reported with the response's address and reason, and a declared
/// length above `limit` as a download that is too large.
pub fn check_response(url: &str, status: u16, reason: &str, declared: Option<usize>, limit: usize) -> (result:
    Result<(), ExtractError>)
    ensures
        !(200 <= status < 300) ==> (result matches Err(ExtractError::HttpStatus { url: u, status: s, reason: r })
            && u@ == url@ && s == status && r@ == reason@),
        200 <= status < 300 ==> (result is Ok <==> !(declared matches Some(length) && length > limit)),
        200 <= status < 300 ==> (result matches Err(error) ==> (error matches ExtractError::DownloadTooLarge {
            url: u,
            limit: l,
        } && u@ == url@ && l == limit)),
{
    if !(200 <= status && status < 300) {
        return Err(ExtractError::HttpStatus { url: url.to_owned(), status, reason: reason.to_owned() });
    }
    if let Some(length) = declared {
        if length > limit {
            return Err(ExtractError::DownloadTooLarge { url: url.to_owned(), limit });
        }
    }
    Ok(())
}

/// The number of bytes to read: one more than the limit, so that an oversized
/// body shows; refused when that does not fit in 64 bits.
pub fn read_limit(url: &str, limit: usize) -> (result: Result<u64, ExtractError>)
    ensures
        limit < u64::MAX ==> result == Ok::<u64, ExtractError>((limit + 1) as u64),
        limit >= u64::MAX ==> (result matches Err(ExtractError::DownloadTooLarge { url: u, limit: l }) && u@
            == url@ && l == limit),
{
    if (limit as u64) < u64::MAX && limit as u128 <= u64::MAX as u128 {
        Ok(limit as u64 + 1)
    } else {
        Err(ExtractError::DownloadTooLarge { url: url.to_owned(), limit })
    }
}

/// Accept a body only when it is within the limit.
pub fn check_body_length(url: &str, length: usize, limit: usize) -> (result: Result<(), ExtractError>)
    ensures
        result is Ok <==> length <= limit,
        result matches Err(error) ==> (error matches ExtractError::DownloadTooLarge { url: u, limit: l } && u@
            == url@ && l == limit),
{
    if length > limit {
        return Err(ExtractError::DownloadTooLarge { url: url.to_owned(), limit });
    }
    Ok(())
}

} // verus!
