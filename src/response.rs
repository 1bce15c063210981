//! Response translation: status code and header entries for the caller.

use crate::error::{DispatchError, ErrorKind};
use crate::headers::{
    canonical_entries, flatten, is_header_name, response_header_model, response_headers,
};
use vstd::prelude::*;

verus! {

/// A valid standard status code: three decimal digits.
pub open spec fn is_status_code(code: u16) -> bool {
    100 <= code < 1000
}

/// Relies on http's `StatusCode::from_u16`, which accepts exactly the codes
/// from 100 to 999.
#[verifier::external_body]
fn status_code(code: u16) -> (r: Result<(), String>)
    ensures
        r is Ok <==> is_status_code(code),
{
    match http::StatusCode::from_u16(code) {
        Ok(_) => Ok(()),
        Err(e) => Err(e.to_string()),
    }
}

/// The caller-facing status and headers of a response.
pub struct ResponseParts {
    /// A valid status code.
    pub code: u16,
    /// One (name, value) entry per value, names in canonical lower case.
    pub headers: Vec<(String, String)>,
}

/// Translates a response's status code and header collection. The status is
/// checked first, then every header name.
pub fn translate_response(code: u16, headers: &Vec<(String, Vec<String>)>) -> (r: Result<
    ResponseParts,
    DispatchError,
>)
    ensures
        match r {
            Ok(p) => is_status_code(code) && p.code == code
                && (forall|i: int| 0 <= i < headers@.len() ==> is_header_name(#[trigger] headers@[i].0@))
                && canonical_entries(flatten(response_header_model(headers@)), p.headers@),
            Err(e) => if !is_status_code(code) {
                e.kind == ErrorKind::Status
            } else {
                e.kind == ErrorKind::HeaderName && exists|i: int|
                    0 <= i < headers@.len() && !is_header_name(#[trigger] headers@[i].0@)
            },
        },
{
    if let Err(m) = status_code(code) {
        return Err(DispatchError::new(ErrorKind::Status, m));
    }
    let headers = match response_headers(headers) {
        Ok(h) => h,
        Err(e) => return Err(e),
    };
    Ok(ResponseParts { code, headers })
}

} // verus!
