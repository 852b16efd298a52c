//! The header set of a request: the bearer credential, the JSON content
//! type, then the caller's own headers, which may override either.

use vstd::prelude::*;

use crate::error::{is_internal, ApiError};

verus! {

/// A character that an HTTP header value may hold: a tab, or any character
/// but the other controls and DEL.
pub open spec fn header_char_ok(c: char) -> bool {
    c == '\t' || (c as u32 >= 32 && c as u32 != 127)
}

pub open spec fn header_value_ok(s: Seq<char>) -> bool {
    forall|i: int| 0 <= i < s.len() ==> header_char_ok(#[trigger] s[i])
}

/// Whether `name` is accepted as an HTTP header name.
pub uninterp spec fn header_name_ok(name: Seq<char>) -> bool;

/// Relies on `http::HeaderValue::from_str` (re-exported by reqwest): it
/// accepts exactly the strings whose UTF-8 bytes are all a tab, or at least
/// 32 and not 127; a character of two or more bytes has all of them above
/// 127.
#[verifier::external_body]
fn header_value_valid(s: &str) -> (r: bool)
    ensures
        r == header_value_ok(s@),
{
    reqwest::header::HeaderValue::from_str(s).is_ok()
}

/// Relies on `http::HeaderName::from_bytes` (re-exported by reqwest): whether
/// it accepts the name depends on the name alone.
#[verifier::external_body]
fn header_name_valid(name: &str) -> (r: bool)
    ensures
        r == header_name_ok(name@),
{
    reqwest::header::HeaderName::from_bytes(name.as_bytes()).is_ok()
}

/// A header list as text.
pub open spec fn headers_view(h: Seq<(String, String)>) -> Seq<(Seq<char>, Seq<char>)> {
    h.map_values(|p: (String, String)| (p.0@, p.1@))
}

/// Every custom header has an accepted name and value.
pub open spec fn custom_headers_ok(h: Seq<(String, String)>) -> bool {
    forall|i: int|
        0 <= i < h.len() ==> header_name_ok(#[trigger] h[i].0@) && header_value_ok(h[i].1@)
}

/// The authorization value for a credential.
pub open spec fn bearer(token: Seq<char>) -> Seq<char> {
    "Bearer "@ + token
}

/// The two headers every request carries.
pub open spec fn base_headers(token: Seq<char>) -> Seq<(Seq<char>, Seq<char>)> {
    seq![("Authorization"@, bearer(token)), ("Content-Type"@, "application/json"@)]
}

/// Builds the headers of a request, in the order in which they are to be
/// applied (a later one replaces an earlier one of the same name).
pub fn build_headers(api_token: &str, custom_headers: Option<&Vec<(String, String)>>) -> (r:
    Result<Vec<(String, String)>, ApiError>)
    ensures
        !header_value_ok(bearer(api_token@)) <==> (r.is_err() && is_internal(
            r->Err_0,
            "Invalid API token: failed to parse header value"@,
        )),
        r.is_ok() <==> header_value_ok(bearer(api_token@)) && match custom_headers {
            Some(c) => custom_headers_ok(c@),
            None => true,
        },
        r.is_err() ==> r->Err_0 is Internal,
        r.is_ok() ==> headers_view(r->Ok_0@) == base_headers(api_token@) + match custom_headers {
            Some(c) => headers_view(c@),
            None => Seq::empty(),
        },
{
    let auth = String::from_str("Bearer ").concat(api_token);
    if !header_value_valid(auth.as_str()) {
        return Err(
            ApiError::Internal {
                message: String::from_str("Invalid API token: failed to parse header value"),
            },
        );
    }
    let mut headers: Vec<(String, String)> = Vec::new();
    headers.push((String::from_str("Authorization"), auth));
    headers.push((String::from_str("Content-Type"), String::from_str("application/json")));
    assert(headers_view(headers@) =~= base_headers(api_token@));
    match custom_headers {
        Some(custom) => {
            let mut i: usize = 0;
            while i < custom.len()
                invariant
                    i <= custom@.len(),
                    header_value_ok(bearer(api_token@)),
                    custom_headers == Some(custom),
                    custom_headers_ok(custom@.subrange(0, i as int)),
                    headers_view(headers@) == base_headers(api_token@) + headers_view(
                        custom@.subrange(0, i as int),
                    ),
                decreases custom@.len() - i,
            {
                let name = &custom[i].0;
                let value = &custom[i].1;
                if !header_name_valid(name.as_str()) || !header_value_valid(value.as_str()) {
                    assert(!(header_name_ok(custom@[i as int].0@) && header_value_ok(
                        custom@[i as int].1@,
                    )));
                    assert(!custom_headers_ok(custom@)) by {
                        if custom_headers_ok(custom@) {
                            assert(header_name_ok(custom@[i as int].0@) && header_value_ok(
                                custom@[i as int].1@,
                            ));
                        }
                    }
                    proof {
                        reveal_strlit("Invalid custom header");
                        reveal_strlit("Invalid API token: failed to parse header value");
                    }
                    assert("Invalid custom header"@.len() != "Invalid API token: failed to parse header value"@.len());
                    return Err(
                        ApiError::Internal {
                            message: String::from_str("Invalid custom header"),
                        },
                    );
                }
                let ghost before = headers@;
                headers.push((name.clone(), value.clone()));
                assert(headers_view(headers@) =~= headers_view(before).push(
                    (name@, value@),
                ));
                assert(headers_view(custom@.subrange(0, i + 1)) =~= headers_view(
                    custom@.subrange(0, i as int),
                ).push((name@, value@)));
                assert(custom@.subrange(0, i + 1) =~= custom@.subrange(0, i as int).push(
                    custom@[i as int],
                ));
                assert(headers_view(headers@) =~= base_headers(api_token@) + headers_view(
                    custom@.subrange(0, i + 1),
                ));
                assert forall|j: int| 0 <= j < i + 1 implies header_name_ok(
                    #[trigger] custom@.subrange(0, i + 1)[j].0@,
                ) && header_value_ok(custom@.subrange(0, i + 1)[j].1@) by {
                    if j < i {
                        assert(custom@.subrange(0, i + 1)[j] == custom@.subrange(0, i as int)[j]);
                    }
                }
                i = i + 1;
            }
            assert(custom@.subrange(0, custom@.len() as int) =~= custom@);
        },
        None => {
            assert(base_headers(api_token@) + Seq::empty() =~= base_headers(api_token@));
        },
    }
    Ok(headers)
}

} // verus!
