//! The headers every answer carries, and those that report the rate limit and the cache.
use vstd::prelude::*;

use crate::github::headers_view;
use crate::text::{
    all_digits, decimal, decimal_string, digits_value, lemma_decimal_digits,
    lemma_digits_value_of_decimal, lemma_parse_decimal_roundtrip, parse_u32,
};

verus! {

/// The cross-origin headers: any origin may `GET`, with `Content-Type`, for a day.
pub open spec fn cors_header_list() -> Seq<(Seq<char>, Seq<char>)> {
    seq![
        ("Access-Control-Allow-Origin"@, "*"@),
        ("Access-Control-Allow-Methods"@, "GET, OPTIONS"@),
        ("Access-Control-Allow-Headers"@, "Content-Type"@),
        ("Access-Control-Max-Age"@, "86400"@),
    ]
}

/// The headers of every JSON answer: cross-origin, security, caching and content type.
pub open spec fn standard_header_list() -> Seq<(Seq<char>, Seq<char>)> {
    cors_header_list() + seq![
        ("X-Content-Type-Options"@, "nosniff"@),
        ("X-Frame-Options"@, "DENY"@),
        ("X-XSS-Protection"@, "1; mode=block"@),
        ("Referrer-Policy"@, "strict-origin-when-cross-origin"@),
        ("Cache-Control"@, "public, max-age=300, stale-while-revalidate=60"@),
        ("Vary"@, "Accept-Encoding"@),
        ("Content-Type"@, "application/json"@),
    ]
}

/// The headers reporting what is left of the rate limit and when it resets.
pub open spec fn rate_header_list(remaining: u32, reset: u64) -> Seq<(Seq<char>, Seq<char>)> {
    seq![
        ("X-RateLimit-Remaining"@, decimal(remaining as nat)),
        ("X-RateLimit-Reset"@, decimal(reset as nat)),
    ]
}

/// The header telling whether the answer came from the cache.
pub open spec fn cache_header(cached: bool) -> (Seq<char>, Seq<char>) {
    ("X-Cache"@, if cached {
        "HIT"@
    } else {
        "MISS"@
    })
}

fn pair(name: &str, value: &str) -> (p: (String, String))
    ensures
        p.0@ == name@,
        p.1@ == value@,
{
    (name.to_owned(), value.to_owned())
}

/// The cross-origin headers, as the answer to a preflight request carries them.
pub fn cors_headers() -> (h: Vec<(String, String)>)
    ensures
        headers_view(h@) == cors_header_list(),
{
    let mut h: Vec<(String, String)> = Vec::new();
    h.push(pair("Access-Control-Allow-Origin", "*"));
    h.push(pair("Access-Control-Allow-Methods", "GET, OPTIONS"));
    h.push(pair("Access-Control-Allow-Headers", "Content-Type"));
    h.push(pair("Access-Control-Max-Age", "86400"));
    proof {
        assert(headers_view(h@) =~= cors_header_list());
    }
    h
}

/// The headers of a JSON answer, followed by the extra ones given.
pub fn response_headers(extra: Option<Vec<(String, String)>>) -> (h: Vec<(String, String)>)
    ensures
        headers_view(h@) == standard_header_list() + match extra {
            Some(e) => headers_view(e@),
            None => Seq::empty(),
        },
{
    let mut h = cors_headers();
    let ghost cors = h@;
    let mut rest: Vec<(String, String)> = Vec::new();
    rest.push(pair("X-Content-Type-Options", "nosniff"));
    rest.push(pair("X-Frame-Options", "DENY"));
    rest.push(pair("X-XSS-Protection", "1; mode=block"));
    rest.push(pair("Referrer-Policy", "strict-origin-when-cross-origin"));
    rest.push(pair("Cache-Control", "public, max-age=300, stale-while-revalidate=60"));
    rest.push(pair("Vary", "Accept-Encoding"));
    rest.push(pair("Content-Type", "application/json"));
    let ghost rest_v = rest@;
    h.append(&mut rest);
    proof {
        assert(headers_view(h@) =~= standard_header_list());
    }
    let ghost std_h = h@;
    match extra {
        Some(mut e) => {
            let ghost ev = e@;
            h.append(&mut e);
            proof {
                assert(h@ == std_h + ev);
                assert(headers_view(h@) =~= headers_view(std_h) + headers_view(ev));
            }
        },
        None => {
            proof {
                assert(headers_view(h@) =~= standard_header_list() + Seq::empty());
            }
        },
    }
    h
}

/// The headers reporting the rate limit.
pub fn rate_headers(remaining: u32, reset: u64) -> (h: Vec<(String, String)>)
    ensures
        headers_view(h@) == rate_header_list(remaining, reset),
{
    let mut h: Vec<(String, String)> = Vec::new();
    h.push(("X-RateLimit-Remaining".to_owned(), decimal_string(remaining as u64)));
    h.push(("X-RateLimit-Reset".to_owned(), decimal_string(reset)));
    proof {
        assert(headers_view(h@) =~= rate_header_list(remaining, reset));
    }
    h
}

/// The extra headers of a successful answer: the rate limit, then whether it came from the
/// cache.
pub fn success_headers(remaining: u32, reset: u64, cached: bool) -> (h: Vec<(String, String)>)
    ensures
        headers_view(h@) == rate_header_list(remaining, reset).push(cache_header(cached)),
{
    let mut h = rate_headers(remaining, reset);
    let ghost before = h@;
    let value = if cached {
        "HIT"
    } else {
        "MISS"
    };
    h.push(pair("X-Cache", value));
    proof {
        assert(headers_view(h@) =~= headers_view(before).push(cache_header(cached)));
    }
    h
}

/// The extra headers of an error answer: the rate limit, when it is part of the error.
pub fn error_headers(rate_info: Option<(u32, u64)>) -> (h: Option<Vec<(String, String)>>)
    ensures
        rate_info is None ==> h is None,
        rate_info matches Some((remaining, reset)) ==> h matches Some(v) && headers_view(v@)
            == rate_header_list(remaining, reset),
{
    match rate_info {
        Some((remaining, reset)) => Some(rate_headers(remaining, reset)),
        None => None,
    }
}

/// The rate-limit headers read back as the budget and the reset they were given: the
/// remaining budget is the first header and reads as a `u32` equal to `remaining`; the reset
/// is the second, a non-empty run of decimal digits spelling `reset`; a successful answer
/// carries them first, then `X-Cache`.
pub proof fn lemma_rate_headers_read_back(remaining: u32, reset: u64, cached: bool)
    ensures
        rate_header_list(remaining, reset).len() == 2,
        rate_header_list(remaining, reset)[0].0 == "X-RateLimit-Remaining"@,
        parse_u32(rate_header_list(remaining, reset)[0].1) == Some(remaining),
        rate_header_list(remaining, reset)[1].0 == "X-RateLimit-Reset"@,
        rate_header_list(remaining, reset)[1].1.len() > 0,
        all_digits(rate_header_list(remaining, reset)[1].1),
        digits_value(rate_header_list(remaining, reset)[1].1) == reset,
        rate_header_list(remaining, reset).push(cache_header(cached)).len() == 3,
        rate_header_list(remaining, reset).push(cache_header(cached))[0] == rate_header_list(
            remaining,
            reset,
        )[0],
        rate_header_list(remaining, reset).push(cache_header(cached))[1] == rate_header_list(
            remaining,
            reset,
        )[1],
        rate_header_list(remaining, reset).push(cache_header(cached))[2].0 == "X-Cache"@,
{
    lemma_parse_decimal_roundtrip(remaining);
    lemma_decimal_digits(reset as nat);
    lemma_digits_value_of_decimal(reset as nat);
}

} // verus!
