//! The wire-level model of provider traffic.  A provider translates a
//! search into a [`WireRequest`] — a plain description of one HTTP request —
//! and a transport outside this crate executes it and reports back a
//! [`TransportEvent`].

use vstd::prelude::*;

verus! {

/// The HTTP method of a wire request.
#[derive(Debug, Clone, Copy, PartialEq, Eq, Structural)]
pub enum HttpMethod {
    Get,
    Post,
}

/// A plain description of one HTTP request: everything a transport needs
/// to execute it.
#[derive(Debug)]
pub struct WireRequest {
    /// The HTTP method to use.
    pub method: HttpMethod,
    /// The URL to address, without query parameters.
    pub url: String,
    /// Query parameters to append to the URL, in order.
    pub query: Vec<(String, String)>,
    /// Headers to set on the request.
    pub headers: Vec<(String, String)>,
    /// The request body, if any.
    pub body: Option<String>,
}

/// The mathematical image of a [`WireRequest`].
pub struct WireRequestView {
    pub method: HttpMethod,
    pub url: Seq<char>,
    pub query: Seq<(Seq<char>, Seq<char>)>,
    pub headers: Seq<(Seq<char>, Seq<char>)>,
    pub body: Option<Seq<char>>,
}

impl View for WireRequest {
    type V = WireRequestView;

    open spec fn view(&self) -> WireRequestView {
        WireRequestView {
            method: self.method,
            url: self.url@,
            query: self.query.deep_view(),
            headers: self.headers.deep_view(),
            body: self.body.deep_view(),
        }
    }
}

/// What the transport reports back for one wire request.
#[derive(Debug)]
pub enum TransportEvent {
    /// The source answered; carries the HTTP status code and the response
    /// body read as text.
    Response { status: u16, body: String },
    /// The wire request could not be turned into a real HTTP request;
    /// carries the builder's message.
    BuildFailed { message: String },
    /// The request was sent but no response could be retrieved or its body
    /// could not be decoded as text; carries the transport's message.
    TransportFailed { message: String },
}

/// Whether an HTTP status code lies in the conventional successful class.
pub open spec fn is_success_status(status: u16) -> bool {
    200 <= status <= 299
}

} // verus!
