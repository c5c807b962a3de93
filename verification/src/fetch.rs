//! The request side of reading the broker's management HTTP API: the endpoints
//! that are read and the error that a failed read reports. The HTTP calls
//! themselves are made by the caller, which hands the parsed rows back.

use vstd::prelude::*;

verus! {

/// A failed read of the management API, carrying the HTTP client's description of
/// the failure.
#[derive(Debug, Clone, PartialEq, Eq)]
pub enum FetchError {
    Request(String),
}

/// The text that a [`FetchError`] reports.
pub open spec fn fetch_error_text(e: &FetchError) -> Seq<char> {
    match e {
        FetchError::Request(cause) => "http request to the RabbitMQ management API failed: "@
            + cause@,
    }
}

impl FetchError {
    /// The line that reports this error (what `Display` writes for it).
    pub fn message(&self) -> (text: String)
        ensures
            text@ == fetch_error_text(self),
    {
        match self {
            FetchError::Request(cause) => {
                let mut text = String::from_str(
                    "http request to the RabbitMQ management API failed: ",
                );
                text.append(cause.as_str());
                text
            },
        }
    }
}

/// The URL of the vhost listing under the management API at `base_url`.
pub open spec fn vhosts_url(base_url: Seq<char>) -> Seq<char> {
    base_url + "/api/vhosts"@
}

/// The URL of the queue listing under the management API at `base_url`.
pub open spec fn queues_url(base_url: Seq<char>) -> Seq<char> {
    base_url + "/api/queues"@
}

/// The endpoint that lists the broker's vhosts (`GET /api/vhosts`).
pub fn vhosts_endpoint(base_url: &str) -> (url: String)
    ensures
        url@ == vhosts_url(base_url@),
{
    let mut url = String::from_str(base_url);
    url.append("/api/vhosts");
    url
}

/// The endpoint that lists the broker's queues (`GET /api/queues`).
pub fn queues_endpoint(base_url: &str) -> (url: String)
    ensures
        url@ == queues_url(base_url@),
{
    let mut url = String::from_str(base_url);
    url.append("/api/queues");
    url
}

} // verus!
