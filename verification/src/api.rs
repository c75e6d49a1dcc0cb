//! The values and decisions of the management surface: error classes and
//! their status codes, API-key scopes, bearer-token extraction, and the
//! naming of uploaded pictures.  The transport around them lives outside
//! this crate.

use vstd::prelude::*;
use vstd::string::StringExecFns;
use vstd::string::StrSliceExecFns;

use crate::catalog::{lower_char, lower_ascii};
use crate::codec::{trim, trim_range};
use crate::text::{chars_of, spec_is_prefix, str_starts_with, string_from_range};

verus! {

/// Why a request was refused or failed.
pub enum ApiError {
    /// No valid credentials were presented.
    Unauthorized,
    /// The addressed resource does not exist.
    NotFound,
    /// The request itself is invalid; the text says how.
    BadRequest(String),
    /// Something on the server side went wrong; the text says what.
    Internal(String),
}

impl ApiError {
    /// The HTTP status code this error maps to.
    pub fn status_code(&self) -> (r: u16)
        ensures
            r == (match self {
                ApiError::Unauthorized => 401u16,
                ApiError::NotFound => 404u16,
                ApiError::BadRequest(_) => 400u16,
                ApiError::Internal(_) => 500u16,
            }),
    {
        match self {
            ApiError::Unauthorized => 401,
            ApiError::NotFound => 404,
            ApiError::BadRequest(_) => 400,
            ApiError::Internal(_) => 500,
        }
    }
}

/// A verified caller: which key it presented and what that key may do.
pub struct ApiKey {
    pub id: String,
    pub scope: String,
}

/// One key as listed to administrators; the secret never appears.
pub struct KeyInfo {
    pub id: String,
    pub scope: String,
    pub created: i64,
}

/// A request to mint a key.
pub struct KeyCreateRequest {
    pub id: String,
    pub scope: String,
}

/// One stored picture, as the management surface reports it.
pub struct Picture {
    pub id: String,
    pub filename: String,
    pub added_at: i64,
}

/// One stored picture, as the transfer format carries it.
pub struct PictureDto {
    pub id: String,
    pub filename: String,
    pub added_at: i64,
}

/// The scopes that may read: both the read-only and the read-write one.
pub open spec fn spec_scope_allows_read(s: Seq<char>) -> bool {
    s == "ro"@ || s == "rw"@
}

/// The one scope that may write.
pub open spec fn spec_scope_allows_write(s: Seq<char>) -> bool {
    s == "rw"@
}

/// Whether a key of this scope may list and fetch.
pub fn scope_allows_read(scope: &str) -> (r: bool)
    ensures
        r == spec_scope_allows_read(scope@),
{
    crate::text::str_eq(scope, "ro") || crate::text::str_eq(scope, "rw")
}

/// Whether a key of this scope may upload, delete, pin, and manage keys.
pub fn scope_allows_write(scope: &str) -> (r: bool)
    ensures
        r == spec_scope_allows_write(scope@),
{
    crate::text::str_eq(scope, "rw")
}

/// Whether a scope may be given to a new key: only the two known ones.
pub fn valid_key_scope(scope: &str) -> (r: bool)
    ensures
        r == spec_scope_allows_read(scope@),
{
    scope_allows_read(scope)
}

/// The token of an authorization header: what follows `Bearer `, without
/// surrounding whitespace.
pub open spec fn spec_bearer_token(h: Seq<char>) -> Option<Seq<char>> {
    if spec_is_prefix(h, "Bearer "@) {
        Some(trim(h.subrange("Bearer "@.len() as int, h.len() as int)))
    } else {
        None
    }
}

/// Extract the bearer token from an authorization header.
pub fn bearer_token(header: &str) -> (r: Option<String>)
    ensures
        (r is Some) == (spec_bearer_token(header@) is Some),
        r is Some ==> Some(r->0@) == spec_bearer_token(header@),
{
    if !str_starts_with(header, "Bearer ") {
        return None;
    }
    let plen = "Bearer ".unicode_len();
    let cs = chars_of(header);
    let n = cs.len();
    let (a, b) = trim_range(cs.as_slice(), plen, n);
    let tok = string_from_range(cs.as_slice(), a, b);
    proof {
        assert(cs@.subrange(plen as int, n as int) =~= header@.subrange(
            "Bearer "@.len() as int,
            header@.len() as int,
        ));
    }
    Some(tok)
}

/// The lower-cased characters of a string.
pub open spec fn seq_lower(s: Seq<char>) -> Seq<char> {
    s.map_values(|c: char| lower_char(c))
}

/// Whether `s`, lower-cased, is exactly `lit`.
fn eq_lower(s: &str, lit: &str) -> (r: bool)
    ensures
        r == (seq_lower(s@) == lit@),
{
    let slen = s.unicode_len();
    let llen = lit.unicode_len();
    if slen != llen {
        return false;
    }
    let mut i: usize = 0;
    while i < slen
        invariant
            slen == s@.len(),
            llen == lit@.len(),
            slen == llen,
            i <= slen,
            forall|j: int| 0 <= j < i ==> lower_char(s@[j]) == lit@[j],
        decreases slen - i,
    {
        let c = lower_ascii(s.get_char(i));
        if c != lit.get_char(i) {
            proof {
                assert(seq_lower(s@)[i as int] == lower_char(s@[i as int]));
            }
            return false;
        }
        i += 1;
    }
    proof {
        assert(seq_lower(s@) =~= lit@);
    }
    true
}

/// The filename extension for an upload's content type: `jpg` for JPEG
/// images, `png` for PNG images, nothing for anything else.
pub fn ext_for_mime(content_type: &str) -> (r: Option<&'static str>)
    ensures
        seq_lower(content_type@) == "image/jpeg"@ ==> r is Some && r->0@ == "jpg"@,
        seq_lower(content_type@) == "image/png"@ ==> r is Some && r->0@ == "png"@,
        seq_lower(content_type@) != "image/jpeg"@ && seq_lower(content_type@) != "image/png"@
            ==> r is None,
{
    proof {
        reveal_strlit("image/jpeg");
        reveal_strlit("image/png");
    }
    proof {
        assert("image/jpeg"@.len() == 10);
        assert("image/png"@.len() == 9);
    }
    if eq_lower(content_type, "image/jpeg") {
        let r = Some("jpg");
        proof {
            assert(r->0@ == "jpg"@);
        }
        r
    } else if eq_lower(content_type, "image/png") {
        let r = Some("png");
        proof {
            assert(r->0@ == "png"@);
        }
        r
    } else {
        None
    }
}

/// Characters a hyphenated UUID is written with.
pub open spec fn uuid_char(c: char) -> bool {
    crate::dectext::is_digit(c) || ('a' as u32 <= c as u32 <= 'f' as u32) || c == '-'
}

/// Relies on uuid's `new_v4` and its hyphenated text form: 36 characters,
/// lowercase hexadecimal with hyphens at positions 8, 13, 18 and 23.
#[verifier::external_body]
fn new_picture_id() -> (r: String)
    ensures
        r@.len() == 36,
        forall|i: int| 0 <= i < 36 ==> uuid_char(#[trigger] r@[i]),
        r@[8] == '-' && r@[13] == '-' && r@[18] == '-' && r@[23] == '-',
{
    uuid::Uuid::new_v4().to_string()
}

/// A fresh identifier and the stored filename built from it: the
/// identifier, a dot, and the extension.
pub fn fresh_picture_name(ext: &str) -> (r: (String, String))
    ensures
        r.1@ == r.0@ + "."@ + ext@,
        r.0@.len() == 36,
        forall|i: int| 0 <= i < 36 ==> uuid_char(#[trigger] r.0@[i]),
{
    let id = new_picture_id();
    let mut name = String::new();
    name.append(id.as_str());
    name.append(".");
    name.append(ext);
    proof {
        assert(name@ =~= id@ + "."@ + ext@);
    }
    (id, name)
}

} // verus!
