//! The built-in search providers and the dispatch over them.  Each provider
//! translates a [`crate::SearchRequest`] into a wire request for its source
//! and translates the source's raw response body back into [`crate::Torrent`]
//! entities; the [`Provider`] enum dispatches over the closed set of sources.

use vstd::prelude::*;

pub mod knaben;
pub mod piratebay;
pub mod yts;

pub use knaben::Knaben;
pub use piratebay::PirateBay;
pub use yts::Yts;

use crate::SearchRequest;
use crate::Torrent;
use crate::TorrentView;
use crate::errors::ClientError;
use crate::wire::WireRequest;

verus! {

/// One registered search provider.  The set of sources is closed; each
/// variant carries the configuration of its adapter.
#[derive(Debug)]
pub enum Provider {
    Knaben(Knaben),
    PirateBay(PirateBay),
    Yts(Yts),
}

/// The torrents a provider's parse step yields for a response body: the
/// mapped torrents of the body's decode, or nothing when the body does not
/// decode as the provider's wire shape.
pub open spec fn provider_parse(p: Provider, body: Seq<char>) -> Option<Seq<TorrentView>> {
    match p {
        Provider::Knaben(_) => match knaben::knaben_hits_of(body) {
            Some(entries) => Some(knaben::knaben_torrents(entries)),
            None => None,
        },
        Provider::PirateBay(_) => match piratebay::piratebay_rows_of(body) {
            Some(entries) => Some(piratebay::piratebay_torrents(entries)),
            None => None,
        },
        Provider::Yts(_) => match yts::yts_movies_of(body) {
            Some(movies) => Some(yts::yts_torrents(movies)),
            None => None,
        },
    }
}

impl Provider {
    /// The provider's registry key: its API URL.
    pub open spec fn spec_id(&self) -> Seq<char> {
        match self {
            Provider::Knaben(p) => p.spec_id(),
            Provider::PirateBay(p) => p.spec_id(),
            Provider::Yts(p) => p.spec_id(),
        }
    }

    /// Returns the unique identifier of this provider.
    pub fn id(&self) -> (r: String)
        ensures
            r@ == self.spec_id(),
    {
        match self {
            Provider::Knaben(p) => p.id(),
            Provider::PirateBay(p) => p.id(),
            Provider::Yts(p) => p.id(),
        }
    }

    /// The wire request this provider sends for the given search.
    pub open spec fn spec_build_request(&self, request: SearchRequest) -> crate::wire::WireRequestView {
        match self {
            Provider::Knaben(p) => p.spec_build_request(request),
            Provider::PirateBay(p) => p.spec_build_request(request),
            Provider::Yts(p) => p.spec_build_request(request),
        }
    }

    /// Translates a search request into this provider's wire request.
    pub fn build_request(&self, request: &SearchRequest) -> (w: WireRequest)
        ensures
            w@ == self.spec_build_request(*request),
    {
        match self {
            Provider::Knaben(p) => p.build_request(request),
            Provider::PirateBay(p) => p.build_request(request),
            Provider::Yts(p) => p.build_request(request),
        }
    }

    /// Translates this provider's raw response body into torrents.  The
    /// parse fails, with a data-parse error, exactly when the body does not
    /// decode as this provider's wire shape; otherwise it returns exactly
    /// the torrents of the body's decode — a body that decodes to zero
    /// entities is a success with an empty list.
    pub fn parse_response(&self, response: &str) -> (r: Result<Vec<Torrent>, ClientError>)
        ensures
            provider_parse(*self, response@) matches Some(expected) ==> (r matches Ok(ts)
                && ts.deep_view() == expected),
            provider_parse(*self, response@) is None ==> (r matches Err(e)
                && e is DataParseError),
            r matches Ok(ts) ==> crate::magnet_templated(ts.deep_view()),
    {
        match self {
            Provider::Knaben(p) => p.parse_response(response),
            Provider::PirateBay(p) => p.parse_response(response),
            Provider::Yts(p) => p.parse_response(response),
        }
    }
}

} // verus!
