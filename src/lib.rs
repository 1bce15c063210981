//! Adapter that lets a generic asynchronous HTTP client serve as a
//! signed-request dispatcher: request translation, response translation and
//! the chunked body bridge, each with a verified contract.

use std::sync::Arc;
use vstd::prelude::*;

pub mod body;
pub mod dispatch;
pub mod error;
pub mod headers;
pub mod request;
pub mod response;

verus! {

/// Shared handle to the underlying HTTP client.
pub struct HttpClient<H>(pub Arc<H>);

impl<H> HttpClient<H> {
    /// Wraps `client` in a reference-counted handle.
    pub fn new(client: H) -> (r: Self)
        ensures
            *r.0 == client,
    {
        HttpClient(Arc::new(client))
    }

    /// The shared handle, for issuing a send.
    pub fn shared(&self) -> (r: &Arc<H>)
        ensures
            *r == self.0,
    {
        &self.0
    }
}

} // verus!
