//! The fields of a decoded log record that the library reads.
use vstd::prelude::*;
use crate::platform::literal;

verus! {

/// An HTTP response status.
#[derive(Debug, Clone, Copy, PartialEq, Eq, Structural)]
pub struct ResponseStatus(pub u16);

impl ResponseStatus {
    /// Only `200` and `304` count as a successful download.
    pub fn is_success(&self) -> (r: bool)
        ensures
            r == (self.0 == 200 || self.0 == 304),
    {
        self.0 == 200 || self.0 == 304
    }
}

/// The client address a record is given when it carries none.
pub fn default_ip() -> (r: String)
    ensures
        r@ == "0.0.0.0"@,
{
    literal("0.0.0.0")
}

/// An optional text field where an empty text means the field is absent.
pub fn empty_string_is_none(s: Option<String>) -> (r: Option<String>)
    ensures
        r == (match s {
            Some(t) => if t@.len() == 0 {
                None::<String>
            } else {
                Some(t)
            },
            None => None,
        }),
{
    match s {
        Some(t) => if t.as_str().is_empty() {
            None
        } else {
            Some(t)
        },
        None => None,
    }
}

/// One access-log record, as far as the statistics read it.
#[derive(Debug)]
pub struct Request {
    pub timestamp: String,
    pub request_path: String,
    pub request_query: String,
    pub user_agent: String,
    pub tls_cipher: String,
    pub client_ip: String,
}

} // verus!
