//! Request translation: from the parts of a signed request to the method,
//! absolute URL, header entries and body of the outgoing request.

use crate::error::{DispatchError, ErrorKind};
use crate::headers::{
    decoded_entries, first_request_error, flatten, request_header_model, request_headers,
    canonical_entries, lemma_invalid_utf8_rejected,
};
use vstd::utf8::valid_utf8;
use vstd::prelude::*;

verus! {

/// ASCII upper-casing of one character code.
pub open spec fn upper_code(u: u32) -> u32 {
    if 97 <= u <= 122 {
        (u - 32) as u32
    } else {
        u
    }
}

/// `t` is `s` with its ASCII small letters raised.
pub open spec fn same_token(s: Seq<char>, t: Seq<char>) -> bool {
    t.len() == s.len() && forall|i: int| 0 <= i < s.len() ==> (t[i] as u32) == upper_code(s[i] as u32)
}

/// No ASCII small letter occurs in `t`.
pub open spec fn is_upper_text(t: Seq<char>) -> bool {
    forall|i: int| 0 <= i < t.len() ==> !(97 <= (#[trigger] t[i] as u32) <= 122)
}

/// The method names that http_types knows, in their upper-case form.
pub open spec fn is_method_token(t: Seq<char>) -> bool {
    is_upper_text(t) && (t == "ACL"@ || t == "BASELINE-CONTROL"@ || t == "BIND"@ || t == "CHECKIN"@
        || t == "CHECKOUT"@ || t == "CONNECT"@ || t == "COPY"@ || t == "DELETE"@ || t == "GET"@
        || t == "HEAD"@ || t == "LABEL"@ || t == "LINK"@ || t == "LOCK"@ || t == "MERGE"@ || t
        == "MKACTIVITY"@ || t == "MKCALENDAR"@ || t == "MKCOL"@ || t == "MKREDIRECTREF"@ || t
        == "MKWORKSPACE"@ || t == "MOVE"@ || t == "OPTIONS"@ || t == "ORDERPATCH"@ || t
        == "PATCH"@ || t == "POST"@ || t == "PRI"@ || t == "PROPFIND"@ || t == "PROPPATCH"@ || t
        == "PUT"@ || t == "REBIND"@ || t == "REPORT"@ || t == "SEARCH"@ || t == "TRACE"@ || t
        == "UNBIND"@ || t == "UNCHECKOUT"@ || t == "UNLINK"@ || t == "UNLOCK"@ || t == "UPDATE"@
        || t == "UPDATEREDIRECTREF"@ || t == "VERSION-CONTROL"@)
}

/// A method string that parses: some known method name, ignoring ASCII case.
pub open spec fn accepted_method(s: Seq<char>) -> bool {
    exists|t: Seq<char>| is_method_token(t) && same_token(s, t)
}

/// Relies on http_types' `Method::from_str`, which upper-cases its input and
/// matches it against the known names, and on `Method::as_ref`, which gives
/// that name back.
#[verifier::external_body]
fn parse_method(s: &str) -> (r: Result<String, String>)
    ensures
        r is Ok <==> accepted_method(s@),
        r matches Ok(t) ==> is_method_token(t@) && same_token(s@, t@),
{
    match <http_types::Method as std::str::FromStr>::from_str(s) {
        Ok(m) => Ok(m.as_ref().to_string()),
        Err(e) => Err(e.to_string()),
    }
}

/// Every known method name parses, and it comes back unchanged.
pub proof fn lemma_method_token_kept(s: Seq<char>)
    requires
        is_method_token(s),
    ensures
        accepted_method(s),
        forall|t: Seq<char>| is_method_token(t) && same_token(s, t) ==> t == s,
{
    assert(same_token(s, s));
    assert forall|t: Seq<char>| is_method_token(t) && same_token(s, t) implies t == s by {
        assert(forall|i: int| 0 <= i < s.len() ==> (t[i] as u32) == (s[i] as u32));
        assert forall|i: int| 0 <= i < s.len() implies t[i] == s[i] by {
            vstd::utf8::char_u32_cast(t[i], t[i] as u32);
            vstd::utf8::char_u32_cast(s[i], s[i] as u32);
        }
        assert(t =~= s);
    }
}

/// Whether a string parses as an absolute URL; this depends on the string alone.
pub uninterp spec fn url_accepts(s: Seq<char>) -> bool;

/// Relies on url's `Url::parse`, re-exported by http_types.
#[verifier::external_body]
fn parse_url(s: &str) -> (r: Result<(), String>)
    ensures
        r is Ok <==> url_accepts(s@),
{
    match http_types::Url::parse(s) {
        Ok(_) => Ok(()),
        Err(e) => Err(e.to_string()),
    }
}

/// `scheme://hostname` followed by the path, and by `?` and the query when
/// the query is not empty.
pub open spec fn url_text(scheme: Seq<char>, host: Seq<char>, path: Seq<char>, query: Seq<char>) -> Seq<char> {
    let base = scheme + "://"@ + host + path;
    if query.len() == 0 {
        base
    } else {
        base + "?"@ + query
    }
}

/// Assembles the request URL by concatenation alone.
pub fn request_url(scheme: &str, host: &str, path: &str, query: &str) -> (r: String)
    ensures
        r@ == url_text(scheme@, host@, path@, query@),
{
    let mut u = String::from_str(scheme);
    u.append("://");
    u.append(host);
    u.append(path);
    if query.unicode_len() > 0 {
        u.append("?");
        u.append(query);
    }
    u
}

/// The payload of a signed request.
pub enum Payload<S> {
    Absent,
    Buffer(Vec<u8>),
    Stream(S),
}

/// The body of the outgoing request.
pub enum TargetBody<S> {
    /// No body.
    Empty,
    /// An owned copy of the whole payload; its length is known.
    Buffered(Vec<u8>),
    /// A stream read on demand; its length is unknown.
    Streamed(S),
}

/// `b` is the body that carries payload `p`.
pub open spec fn carries<S>(p: Payload<S>, b: TargetBody<S>) -> bool {
    match (p, b) {
        (Payload::Absent, TargetBody::Empty) => true,
        (Payload::Buffer(x), TargetBody::Buffered(y)) => x@ == y@,
        (Payload::Stream(x), TargetBody::Streamed(y)) => x == y,
        _ => false,
    }
}

/// Chooses the body for a payload: empty when absent, the bytes when
/// buffered, the stream itself when streamed.
pub fn request_body<S>(p: Payload<S>) -> (r: TargetBody<S>)
    ensures
        carries(p, r),
{
    match p {
        Payload::Absent => TargetBody::Empty,
        Payload::Buffer(bytes) => TargetBody::Buffered(bytes),
        Payload::Stream(s) => TargetBody::Streamed(s),
    }
}

/// The parts of a signed request that the translation reads.
pub struct RequestParts<S> {
    pub method: String,
    pub scheme: String,
    pub hostname: String,
    pub path: String,
    pub query: String,
    pub headers: Vec<(String, Vec<Vec<u8>>)>,
    pub payload: Payload<S>,
}

/// The outgoing request: a known method name in upper case, an absolute
/// URL, the header entries with lower-case names, and the body.
pub struct TargetRequest<S> {
    pub method_name: String,
    pub url_text: String,
    pub headers: Vec<(String, String)>,
    pub body: TargetBody<S>,
}

/// The URL that the translation of `req` assembles.
pub open spec fn url_of<S>(req: RequestParts<S>) -> Seq<char> {
    url_text(req.scheme@, req.hostname@, req.path@, req.query@)
}

/// The error, if any, of translating `req`: the method first, then the URL,
/// then the headers in order.
pub open spec fn translation_error<S>(req: RequestParts<S>) -> Option<ErrorKind> {
    if !accepted_method(req.method@) {
        Some(ErrorKind::Method)
    } else if !url_accepts(url_of(req)) {
        Some(ErrorKind::Url)
    } else {
        first_request_error(flatten(request_header_model(req.headers@)))
    }
}

/// Builds the outgoing request from the parts of a signed request.
pub fn translate_request<S>(req: RequestParts<S>) -> (r: Result<TargetRequest<S>, DispatchError>)
    ensures
        match r {
            Ok(t) => translation_error(req) is None
                && same_token(req.method@, t.method_name@)
                && is_method_token(t.method_name@)
                && t.url_text@ == url_of(req)
                && canonical_entries(
                decoded_entries(flatten(request_header_model(req.headers@))),
                t.headers@,
            )
                && carries(req.payload, t.body),
            Err(e) => translation_error(req) == Some(e.kind),
        },
{
    let method_name = match parse_method(req.method.as_str()) {
        Ok(p) => p,
        Err(m) => return Err(DispatchError::new(ErrorKind::Method, m)),
    };
    let url_text = request_url(
        req.scheme.as_str(),
        req.hostname.as_str(),
        req.path.as_str(),
        req.query.as_str(),
    );
    if let Err(m) = parse_url(url_text.as_str()) {
        return Err(DispatchError::new(ErrorKind::Url, m));
    }
    let headers = match request_headers(&req.headers) {
        Ok(h) => h,
        Err(e) => return Err(e),
    };
    let body = request_body(req.payload);
    Ok(TargetRequest { method_name, url_text, headers, body })
}


/// A request with a header value that is not valid UTF-8 is never
/// translated: the translation fails with an error.
pub proof fn lemma_invalid_utf8_fails<S>(req: RequestParts<S>, i: int, j: int)
    requires
        0 <= i < req.headers@.len(),
        0 <= j < req.headers@[i].1@.len(),
        !valid_utf8(req.headers@[i].1@[j]@),
    ensures
        translation_error(req) is Some,
{
    lemma_invalid_utf8_rejected(req.headers@, i, j);
}

} // verus!
