use vstd::prelude::*;

verus! {

/// Distinct causes of a dispatch failure.
#[derive(Clone, Copy, Debug, PartialEq, Eq, Structural)]
pub enum ErrorKind {
    /// The method token is not a recognized HTTP method.
    Method,
    /// The assembled URL does not parse as an absolute URL.
    Url,
    /// A request header value is not valid UTF-8.
    HeaderUtf8,
    /// A request header name or value is not ASCII.
    HeaderAscii,
    /// The underlying client failed to send.
    Send,
    /// The deadline elapsed before the send completed.
    Timeout,
    /// The response status code is not a valid status.
    Status,
    /// A response header name is not a valid header name.
    HeaderName,
}

/// The single error shape handed to the caller of a dispatch.
#[derive(Debug)]
pub struct DispatchError {
    pub kind: ErrorKind,
    pub message: String,
}

impl DispatchError {
    /// Normalizes a failure into a dispatch error: the cause's text is kept as
    /// the message, with no other processing.
    pub fn new(kind: ErrorKind, message: String) -> (r: Self)
        ensures
            r.kind == kind,
            r.message@ == message@,
    {
        DispatchError { kind, message }
    }

    /// The human-readable message.
    pub fn message(&self) -> (r: &str)
        ensures
            r@ == self.message@,
    {
        self.message.as_str()
    }
}

} // verus!
