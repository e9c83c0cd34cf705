//! Magneto is a library for searching torrents across multiple providers.
//! It normalizes the heterogeneous responses of several torrent-index web
//! APIs into one result type and returns a merged, ordered list.
//!
//! The library itself performs no I/O: each provider translates a
//! [`SearchRequest`] into a plain [`wire::WireRequest`] description and
//! translates the raw response body of its source back into [`Torrent`]
//! entities.  A caller (or the [`SearchSession`] driver) executes the wire
//! requests with whatever HTTP transport it likes and feeds the outcomes
//! back in.
//!
//! The provider set is closed: [`Provider`] dispatches over the three
//! built-in sources, and user-supplied adapters cannot be registered.

use vstd::prelude::*;

pub mod errors;
mod json;
pub mod ranking;
pub mod search_providers;
pub mod text;
pub mod wire;

pub use errors::ClientError;
pub use search_providers::Knaben;
pub use search_providers::PirateBay;
pub use search_providers::Provider;
pub use search_providers::Yts;
pub use wire::HttpMethod;
pub use wire::TransportEvent;
pub use wire::WireRequest;

use search_providers::provider_parse;
use text::str_eq;
use wire::is_success_status;

verus! {

/// Metadata for a torrent returned by a search provider.
#[derive(Debug, Clone)]
pub struct Torrent {
    /// The display name of the torrent.
    pub name: String,
    /// The magnet link for downloading the torrent, derived from the
    /// content hash reported by the source.
    pub magnet_link: String,
    /// The number of seeders available.
    pub seeders: u32,
    /// The number of peers (leechers) available.
    pub peers: u32,
    /// The size of the torrent in bytes.
    pub size_bytes: u64,
    /// The identity of the provider that produced this torrent.
    pub provider: String,
}

/// The mathematical image of a [`Torrent`]: every text field is seen as its
/// character sequence.
pub struct TorrentView {
    pub name: Seq<char>,
    pub magnet_link: Seq<char>,
    pub seeders: u32,
    pub peers: u32,
    pub size_bytes: u64,
    pub provider: Seq<char>,
}

impl View for Torrent {
    type V = TorrentView;

    open spec fn view(&self) -> TorrentView {
        TorrentView {
            name: self.name@,
            magnet_link: self.magnet_link@,
            seeders: self.seeders,
            peers: self.peers,
            size_bytes: self.size_bytes,
            provider: self.provider@,
        }
    }
}

impl DeepView for Torrent {
    type V = TorrentView;

    open spec fn deep_view(&self) -> TorrentView {
        self.view()
    }
}

/// Every torrent of the sequence carries a magnet link derived from some
/// content hash under the fixed magnet template: no source transmits a
/// ready-made magnet URI.
pub open spec fn magnet_templated(ts: Seq<TorrentView>) -> bool {
    forall|k: int|
        0 <= k < ts.len() ==> exists|h: Seq<char>|
            (#[trigger] ts[k]).magnet_link == "magnet:?xt=urn:btih:"@ + h
}

/// Every torrent of the sequence is provenance-tagged with the given
/// provider name.
pub open spec fn provenance_tagged(ts: Seq<TorrentView>, tag: Seq<char>) -> bool {
    forall|k: int| 0 <= k < ts.len() ==> (#[trigger] ts[k]).provider == tag
}

/// The source-agnostic filter vocabulary.  Each provider owns a partial
/// mapping from these categories to its native category codes.
#[derive(Debug, Clone, Copy, PartialEq, Eq, Structural)]
pub enum Category {
    Movies,
    TvShows,
    Games,
    Software,
    Audio,
    Anime,
    Xxx,
}

/// The field by which merged search results are ordered.
#[derive(Debug, Clone, Copy, PartialEq, Eq, Structural)]
pub enum OrderBy {
    /// Sort results by the number of seeders.
    Seeders,
    /// Sort results by the number of peers.
    Peers,
}

/// The wire name of an [`OrderBy`] key, as sources expect it.
pub open spec fn order_by_label(o: OrderBy) -> Seq<char> {
    match o {
        OrderBy::Seeders => "seeders"@,
        OrderBy::Peers => "peers"@,
    }
}

impl OrderBy {
    /// Renders the sort key to the literal string a wire protocol expects.
    pub fn as_str(&self) -> (s: &'static str)
        ensures
            s@ == order_by_label(*self),
    {
        match self {
            OrderBy::Seeders => "seeders",
            OrderBy::Peers => "peers",
        }
    }
}

/// A search request passed, read-only, to every registered provider.
#[derive(Debug)]
pub struct SearchRequest {
    /// The query string to search for.
    pub query: String,
    /// The order by which the merged results are sorted.
    pub order_by: OrderBy,
    /// Categories to filter results by.  Empty means all categories.
    pub categories: Vec<Category>,
    /// The desired number of results; a hint that each provider caps
    /// on its own.
    pub number_of_results: u32,
}

/// Adding a category keeps the list duplicate-free: a category that is
/// already present is not added again.
pub open spec fn spec_add_category(cats: Seq<Category>, c: Category) -> Seq<Category> {
    if cats.contains(c) {
        cats
    } else {
        cats.push(c)
    }
}

/// The effect of adding a whole list of categories, one after the other.
pub open spec fn spec_add_categories(cats: Seq<Category>, added: Seq<Category>) -> Seq<Category>
    decreases added.len(),
{
    if added.len() == 0 {
        cats
    } else {
        spec_add_category(spec_add_categories(cats, added.drop_last()), added.last())
    }
}

/// Whether a category list holds the given category.
pub(crate) fn contains_category(cats: &Vec<Category>, c: Category) -> (r: bool)
    ensures
        r == cats@.contains(c),
{
    let mut i: usize = 0;
    while i < cats.len()
        invariant
            0 <= i <= cats@.len(),
            forall|j: int| 0 <= j < i ==> cats@[j] != c,
        decreases cats@.len() - i,
    {
        if cats[i] == c {
            return true;
        }
        i = i + 1;
    }
    false
}

impl SearchRequest {
    /// Creates a new request for the given query, ordered by seeders,
    /// with no category filter and a result-count hint of 50.
    pub fn new(query: &str) -> (r: SearchRequest)
        ensures
            r.query@ == query@,
            r.order_by == OrderBy::Seeders,
            r.categories@ == Seq::<Category>::empty(),
            r.number_of_results == 50,
    {
        SearchRequest {
            query: String::from_str(query),
            order_by: OrderBy::Seeders,
            categories: Vec::new(),
            number_of_results: 50,
        }
    }

    /// Adds a single category; a duplicate of one already present is ignored.
    pub fn add_category(self, category: Category) -> (r: SearchRequest)
        ensures
            r.categories@ == spec_add_category(self.categories@, category),
            r.query == self.query,
            r.order_by == self.order_by,
            r.number_of_results == self.number_of_results,
    {
        let mut r = self;
        if !contains_category(&r.categories, category) {
            r.categories.push(category);
        }
        r
    }

    /// Adds each of the given categories in order, ignoring duplicates.
    pub fn add_categories(self, categories: Vec<Category>) -> (r: SearchRequest)
        ensures
            r.categories@ == spec_add_categories(self.categories@, categories@),
            r.query == self.query,
            r.order_by == self.order_by,
            r.number_of_results == self.number_of_results,
    {
        let mut r = self;
        let mut i: usize = 0;
        while i < categories.len()
            invariant
                0 <= i <= categories@.len(),
                r.categories@ == spec_add_categories(self.categories@, categories@.take(i as int)),
                r.query == self.query,
                r.order_by == self.order_by,
                r.number_of_results == self.number_of_results,
            decreases categories@.len() - i,
        {
            r = r.add_category(categories[i]);
            proof {
                assert(categories@.take(i + 1).drop_last() =~= categories@.take(i as int));
                assert(categories@.take(i + 1).last() == categories@[i as int]);
            }
            i = i + 1;
        }
        proof {
            assert(categories@.take(categories@.len() as int) =~= categories@);
        }
        r
    }
}

/// Whether two providers of a registry share an id: the registry invariant
/// rules this out.
pub open spec fn distinct_ids(ps: Seq<Provider>) -> bool {
    forall|i: int, j: int|
        0 <= i < j < ps.len() ==> (#[trigger] ps[i].spec_id()) != (#[trigger] ps[j].spec_id())
}

/// Whether some provider of the registry carries the given id.
pub open spec fn has_provider_id(ps: Seq<Provider>, id: Seq<char>) -> bool {
    exists|i: int| 0 <= i < ps.len() && (#[trigger] ps[i].spec_id()) == id
}

/// The effect of registering a provider: appended, unless one with the
/// same id is already present, in which case nothing changes.
pub open spec fn spec_register(ps: Seq<Provider>, p: Provider) -> Seq<Provider> {
    if has_provider_id(ps, p.spec_id()) {
        ps
    } else {
        ps.push(p)
    }
}

/// The effect of registering a whole list of providers, one after the other.
pub open spec fn spec_register_all(ps: Seq<Provider>, added: Seq<Provider>) -> Seq<Provider>
    decreases added.len(),
{
    if added.len() == 0 {
        ps
    } else {
        spec_register(spec_register_all(ps, added.drop_last()), added.last())
    }
}

/// The effect of unregistering an id: the first provider carrying it is
/// removed, and a registry without it is left unchanged.
pub open spec fn spec_unregister(ps: Seq<Provider>, id: Seq<char>) -> Seq<Provider>
    decreases ps.len(),
{
    if ps.len() == 0 {
        ps
    } else if ps[0].spec_id() == id {
        ps.drop_first()
    } else {
        seq![ps[0]] + spec_unregister(ps.drop_first(), id)
    }
}

/// How many providers of the registry carry the given id.
pub open spec fn count_id(ps: Seq<Provider>, id: Seq<char>) -> nat
    decreases ps.len(),
{
    if ps.len() == 0 {
        0
    } else {
        count_id(ps.drop_last(), id) + if ps.last().spec_id() == id {
            1nat
        } else {
            0nat
        }
    }
}

/// A registry without the id holds no entry to count.
proof fn lemma_count_id_zero(ps: Seq<Provider>, id: Seq<char>)
    requires
        forall|i: int| 0 <= i < ps.len() ==> (#[trigger] ps[i].spec_id()) != id,
    ensures
        count_id(ps, id) == 0,
    decreases ps.len(),
{
    if ps.len() > 0 {
        lemma_count_id_zero(ps.drop_last(), id);
    }
}

/// A duplicate-free registry that has an id has it exactly once.
pub proof fn lemma_distinct_count_id(ps: Seq<Provider>, id: Seq<char>)
    requires
        distinct_ids(ps),
        has_provider_id(ps, id),
    ensures
        count_id(ps, id) == 1,
    decreases ps.len(),
{
    if ps.last().spec_id() == id {
        assert(forall|i: int|
            0 <= i < ps.len() - 1 ==> (#[trigger] ps[i].spec_id()) != id);
        lemma_count_id_zero(ps.drop_last(), id);
    } else {
        let w = choose|i: int| 0 <= i < ps.len() && (#[trigger] ps[i].spec_id()) == id;
        assert(ps.drop_last()[w] == ps[w]);
        lemma_distinct_count_id(ps.drop_last(), id);
    }
}

/// Registering the same provider id twice leaves the registry with exactly
/// one entry for that id: the second registration changes nothing.
pub proof fn lemma_register_same_id_twice(ps: Seq<Provider>, p: Provider, q: Provider)
    requires
        distinct_ids(ps),
        q.spec_id() == p.spec_id(),
    ensures
        spec_register(spec_register(ps, p), q) == spec_register(ps, p),
        count_id(spec_register(ps, p), p.spec_id()) == 1,
{
    let r1 = spec_register(ps, p);
    if has_provider_id(ps, p.spec_id()) {
        lemma_distinct_count_id(ps, p.spec_id());
    } else {
        assert(r1 == ps.push(p));
        assert(r1[ps.len() as int].spec_id() == p.spec_id());
        assert(has_provider_id(r1, q.spec_id()));
        assert(r1.drop_last() =~= ps);
        assert(forall|i: int| 0 <= i < ps.len() ==> (#[trigger] ps[i].spec_id()) != p.spec_id());
        lemma_count_id_zero(ps, p.spec_id());
    }
}

/// Unregistering removes exactly the first provider with the id.
proof fn lemma_unregister_at(ps: Seq<Provider>, id: Seq<char>, k: int)
    requires
        0 <= k < ps.len(),
        ps[k].spec_id() == id,
        forall|j: int| 0 <= j < k ==> (#[trigger] ps[j].spec_id()) != id,
    ensures
        spec_unregister(ps, id) == ps.remove(k),
    decreases k,
{
    if k == 0 {
        assert(ps.drop_first() =~= ps.remove(0));
    } else {
        assert(forall|j: int|
            0 <= j < ps.drop_first().len() ==> #[trigger] ps.drop_first()[j] == ps[j + 1]);
        lemma_unregister_at(ps.drop_first(), id, k - 1);
        assert(seq![ps[0]] + ps.drop_first().remove(k - 1) =~= ps.remove(k));
    }
}

/// Unregistering an id that no provider carries changes nothing.
proof fn lemma_unregister_absent(ps: Seq<Provider>, id: Seq<char>)
    requires
        forall|j: int| 0 <= j < ps.len() ==> (#[trigger] ps[j].spec_id()) != id,
    ensures
        spec_unregister(ps, id) == ps,
    decreases ps.len(),
{
    if ps.len() > 0 {
        assert(forall|j: int|
            0 <= j < ps.drop_first().len() ==> #[trigger] ps.drop_first()[j] == ps[j + 1]);
        lemma_unregister_absent(ps.drop_first(), id);
        assert(seq![ps[0]] + ps.drop_first() =~= ps);
    }
}

/// The interface for managing and querying torrent providers: a registry of
/// active providers, deduplicated by id, from which searches are started.
pub struct Magneto {
    active_providers: Vec<Provider>,
}

impl Magneto {
    /// The registered providers, in registration order.
    pub closed spec fn providers(&self) -> Seq<Provider> {
        self.active_providers@
    }

    /// The registry invariant: at most one provider per distinct id.
    pub open spec fn well_formed(&self) -> bool {
        distinct_ids(self.providers())
    }

    /// Creates a registry holding the three built-in providers, each under
    /// its default URL.
    pub fn new() -> (m: Magneto)
        ensures
            m.well_formed(),
            m.providers().len() == 3,
            m.providers()[0] is Knaben,
            m.providers()[1] is PirateBay,
            m.providers()[2] is Yts,
            m.providers()[0].spec_id() == "https://api.knaben.eu/v1"@,
            m.providers()[1].spec_id() == "https://apibay.org/q.php"@,
            m.providers()[2].spec_id() == "https://yts.mx/api/v2/list_movies.json"@,
    {
        let mut providers: Vec<Provider> = Vec::new();
        providers.push(Provider::Knaben(Knaben::new()));
        providers.push(Provider::PirateBay(PirateBay::new()));
        providers.push(Provider::Yts(Yts::new()));
        proof {
            reveal_strlit("https://api.knaben.eu/v1");
            reveal_strlit("https://apibay.org/q.php");
            reveal_strlit("https://yts.mx/api/v2/list_movies.json");
            assert("https://api.knaben.eu/v1"@[11] == '.');
            assert("https://apibay.org/q.php"@[11] == 'b');
            assert("https://api.knaben.eu/v1"@.len() == 24);
            assert("https://apibay.org/q.php"@.len() == 24);
            assert("https://yts.mx/api/v2/list_movies.json"@.len() == 38);
        }
        Magneto { active_providers: providers }
    }

    /// Creates a registry from the given providers, registered in order;
    /// of providers sharing an id, only the first is kept.
    pub fn with_providers(providers: Vec<Provider>) -> (m: Magneto)
        ensures
            m.well_formed(),
            m.providers() == spec_register_all(Seq::<Provider>::empty(), providers@),
    {
        let ghost whole = providers@;
        let mut input = providers;
        let mut m = Magneto::default();
        let ghost mut done: int = 0;
        proof {
            assert(whole.take(0) =~= Seq::<Provider>::empty());
            assert(input@ =~= whole.skip(0));
        }
        while input.len() > 0
            invariant
                0 <= done <= whole.len(),
                input@ == whole.skip(done),
                m.well_formed(),
                m.providers() == spec_register_all(Seq::<Provider>::empty(), whole.take(done)),
            decreases input@.len(),
        {
            let p = input.remove(0);
            proof {
                assert(input@ =~= whole.skip(done).drop_first());
                assert(whole.skip(done).drop_first() =~= whole.skip(done + 1));
                assert(p == whole[done]);
            }
            m = m.add_provider(p);
            proof {
                assert(whole.take(done + 1).drop_last() =~= whole.take(done));
                assert(whole.take(done + 1).last() == whole[done]);
                done = done + 1;
            }
        }
        proof {
            assert(whole.skip(done).len() == 0);
            assert(whole.take(done) =~= whole);
        }
        m
    }

    /// Registers a provider: appended to the registry, unless a provider
    /// with the same id is already active, in which case the call changes
    /// nothing.
    pub fn add_provider(self, provider: Provider) -> (m: Magneto)
        requires
            self.well_formed(),
        ensures
            m.well_formed(),
            m.providers() == spec_register(self.providers(), provider),
    {
        let provider_id = provider.id();
        let mut i: usize = 0;
        while i < self.active_providers.len()
            invariant
                0 <= i <= self.providers().len(),
                self.well_formed(),
                provider_id@ == provider.spec_id(),
                forall|j: int|
                    0 <= j < i ==> (#[trigger] self.providers()[j].spec_id())
                        != provider_id@,
            decreases self.providers().len() - i,
        {
            let existing_id = self.active_providers[i].id();
            if str_eq(existing_id.as_str(), provider_id.as_str()) {
                proof {
                    assert(self.providers()[i as int].spec_id() == provider.spec_id());
                    assert(has_provider_id(self.providers(), provider.spec_id()));
                }
                return self;
            }
            i = i + 1;
        }
        proof {
            assert(!has_provider_id(self.providers(), provider.spec_id()));
        }
        let ghost ps = self.providers();
        let mut m = self;
        m.active_providers.push(provider);
        proof {
            assert(m.providers() =~= ps.push(provider));
            assert(distinct_ids(m.providers())) by {
                assert(forall|x: int| 0 <= x < ps.len() ==> #[trigger] m.providers()[x] == ps[x]);
                assert(m.providers()[ps.len() as int] == provider);
            }
        }
        m
    }

    /// Unregisters the provider with the given id, reporting whether one
    /// was removed; a registry without the id is left unchanged.
    pub fn remove_provider(&mut self, id: &str) -> (removed: bool)
        requires
            old(self).well_formed(),
        ensures
            final(self).well_formed(),
            removed == has_provider_id(old(self).providers(), id@),
            final(self).providers() == spec_unregister(old(self).providers(), id@),
            !removed ==> final(self).providers() == old(self).providers(),
    {
        let mut i: usize = 0;
        while i < self.active_providers.len()
            invariant
                0 <= i <= self.providers().len(),
                self == old(self),
                distinct_ids(self.providers()),
                forall|j: int|
                    0 <= j < i ==> (#[trigger] self.providers()[j].spec_id()) != id@,
            decreases self.providers().len() - i,
        {
            let existing_id = self.active_providers[i].id();
            if str_eq(existing_id.as_str(), id) {
                proof {
                    lemma_unregister_at(self.providers(), id@, i as int);
                    assert(has_provider_id(self.providers(), id@));
                }
                let ghost before = self.providers();
                self.active_providers.remove(i);
                proof {
                    before.remove_ensures(i as int);
                    let after = self.providers();
                    assert forall|a: int, b: int| 0 <= a < b < after.len() implies after[
                        a
                    ].spec_id() != after[b].spec_id() by {
                        if a < i {
                            assert(after[a] == before[a]);
                        } else {
                            assert(after[a] == before[a + 1]);
                        }
                        if b < i {
                            assert(after[b] == before[b]);
                        } else {
                            assert(after[b] == before[b + 1]);
                        }
                    }
                    assert(distinct_ids(after));
                }
                return true;
            }
            i = i + 1;
        }
        proof {
            assert(!has_provider_id(self.providers(), id@));
            lemma_unregister_absent(self.providers(), id@);
        }
        false
    }

    /// The active providers, in registration order.
    pub fn active_providers(&self) -> (ps: &Vec<Provider>)
        ensures
            ps@ == self.providers(),
    {
        &self.active_providers
    }

    /// Starts a search over the registered providers: the session walks
    /// them in registration order, one wire request each.
    pub fn start_search<'a>(&'a self, request: SearchRequest) -> (s: SearchSession<'a>)
        ensures
            s.inv(),
            s.spec_providers() == self.providers(),
            s.spec_request() == request,
            s.spec_next() == 0,
            s.spec_gathered() == Seq::<TorrentView>::empty(),
            s.spec_failure() is None,
    {
        let s = SearchSession {
            providers: &self.active_providers,
            request,
            next: 0,
            gathered: Vec::new(),
            failure: None,
        };
        proof {
            assert(s.spec_gathered() =~= Seq::<TorrentView>::empty());
        }
        s
    }
}

impl Default for Magneto {
    /// An empty registry, to which providers are added one by one.
    fn default() -> (m: Magneto)
        ensures
            m.well_formed(),
            m.providers() == Seq::<Provider>::empty(),
    {
        Magneto { active_providers: Vec::new() }
    }
}

/// One search in flight: the providers still to be asked, the torrents
/// gathered so far, and the first failure, if one occurred.  The caller
/// executes each wire request with its own transport and feeds the outcome
/// back; the first failure aborts the whole aggregation.
pub struct SearchSession<'a> {
    providers: &'a Vec<Provider>,
    request: SearchRequest,
    next: usize,
    gathered: Vec<Torrent>,
    failure: Option<ClientError>,
}

impl<'a> SearchSession<'a> {
    /// The providers this search walks.
    pub closed spec fn spec_providers(&self) -> Seq<Provider> {
        self.providers@
    }

    /// The request this search was started with.
    pub closed spec fn spec_request(&self) -> SearchRequest {
        self.request
    }

    /// How many providers have answered so far.
    pub closed spec fn spec_next(&self) -> int {
        self.next as int
    }

    /// The torrents gathered so far, in provider order.
    pub closed spec fn spec_gathered(&self) -> Seq<TorrentView> {
        self.gathered.deep_view()
    }

    /// The first failure, if one occurred.
    pub closed spec fn spec_failure(&self) -> Option<ClientError> {
        self.failure
    }

    /// The session never walks past the last provider.
    pub open spec fn inv(&self) -> bool {
        0 <= self.spec_next() <= self.spec_providers().len()
    }

    /// Whether another wire request is owed: no failure yet, and providers
    /// remain.
    pub open spec fn active(&self) -> bool {
        self.spec_failure() is None && self.spec_next() < self.spec_providers().len()
    }

    /// The wire request to execute next, or nothing when the session is
    /// over — whether completed or failed.
    pub fn current_request(&self) -> (w: Option<WireRequest>)
        requires
            self.inv(),
        ensures
            self.active() ==> (w matches Some(r) && r@ == self.spec_providers()[
                self.spec_next()
            ].spec_build_request(self.spec_request())),
            !self.active() ==> w is None,
    {
        if self.failure.is_some() {
            return None;
        }
        if self.next >= self.providers.len() {
            return None;
        }
        Some(self.providers[self.next].build_request(&self.request))
    }

    /// Feeds back what the transport did with the current wire request.
    /// A response with a successful status is parsed by the provider:
    /// exactly the torrents of the body's decode are gathered, or, when the
    /// body does not decode as the provider's wire shape, a data-parse
    /// error is recorded.  Any other outcome records the search's failure:
    /// a non-success status becomes a server-response error carrying the
    /// status code and the raw body, a transport failure a response error,
    /// and a request that could not be built a request-build error naming
    /// the provider's URL.
    pub fn on_event(&mut self, event: TransportEvent)
        requires
            old(self).inv(),
            old(self).active(),
        ensures
            final(self).inv(),
            final(self).spec_providers() == old(self).spec_providers(),
            final(self).spec_request() == old(self).spec_request(),
            event matches TransportEvent::BuildFailed { message } ==> {
                &&& final(self).spec_next() == old(self).spec_next()
                &&& final(self).spec_gathered() == old(self).spec_gathered()
                &&& (final(self).spec_failure() matches Some(e) && e matches
                    ClientError::RequestBuildError { source, url } && source == message && url@
                    == old(self).spec_providers()[old(self).spec_next()].spec_id())
            },
            event matches TransportEvent::TransportFailed { message } ==> {
                &&& final(self).spec_next() == old(self).spec_next()
                &&& final(self).spec_gathered() == old(self).spec_gathered()
                &&& (final(self).spec_failure() matches Some(e) && e matches
                    ClientError::ResponseError(m) && m == message)
            },
            event matches TransportEvent::Response { status, body } ==> (if !is_success_status(
                status,
            ) {
                &&& final(self).spec_next() == old(self).spec_next()
                &&& final(self).spec_gathered() == old(self).spec_gathered()
                &&& (final(self).spec_failure() matches Some(e) && e matches
                    ClientError::ServerResponseError { code, content } && code == status && content
                    == body)
            } else {
                match provider_parse(
                    old(self).spec_providers()[old(self).spec_next()],
                    body@,
                ) {
                    Some(found) => {
                        &&& final(self).spec_next() == old(self).spec_next() + 1
                        &&& final(self).spec_failure() is None
                        &&& final(self).spec_gathered() == old(self).spec_gathered() + found
                    },
                    None => {
                        &&& final(self).spec_next() == old(self).spec_next()
                        &&& final(self).spec_gathered() == old(self).spec_gathered()
                        &&& (final(self).spec_failure() matches Some(e) && e is DataParseError)
                    },
                }
            }),
    {
        match event {
            TransportEvent::BuildFailed { message } => {
                let url = self.providers[self.next].id();
                self.failure = Some(ClientError::RequestBuildError { source: message, url });
            },
            TransportEvent::TransportFailed { message } => {
                self.failure = Some(ClientError::ResponseError(message));
            },
            TransportEvent::Response { status, body } => {
                if !(200 <= status && status <= 299) {
                    self.failure = Some(
                        ClientError::ServerResponseError { code: status, content: body },
                    );
                } else {
                    // the provider count fits in a usize, so the index
                    // below it can step up without overflowing
                    let provider_count = self.providers.len();
                    proof {
                        assert(self.next < provider_count);
                    }
                    match self.providers[self.next].parse_response(body.as_str()) {
                        Ok(mut ts) => {
                            let ghost found = ts.deep_view();
                            let ghost before = self.gathered.deep_view();
                            self.gathered.append(&mut ts);
                            self.next = self.next + 1;
                            proof {
                                assert(self.gathered.deep_view() =~= before + found);
                                assert(provider_parse(
                                    old(self).spec_providers()[old(self).spec_next()],
                                    body@,
                                ) == Some(found));
                            }
                        },
                        Err(e) => {
                            self.failure = Some(e);
                        },
                    }
                }
            },
        }
    }

    /// Ends the session: the recorded failure, or the gathered torrents
    /// sorted by the request's key, strictly descending and stable.
    pub fn finish(self) -> (r: Result<Vec<Torrent>, ClientError>)
        requires
            self.inv(),
            !self.active(),
        ensures
            self.spec_failure() matches Some(e) ==> (r matches Err(e2) && e2 == e),
            self.spec_failure() is None ==> (r matches Ok(ts) && ts.deep_view()
                == ranking::sort_desc(self.spec_request().order_by, self.spec_gathered())
                && ranking::sorted_desc(self.spec_request().order_by, ts.deep_view())),
    {
        match self.failure {
            Some(e) => Err(e),
            None => {
                let sorted = ranking::sort_torrents(&self.request.order_by, self.gathered);
                proof {
                    ranking::lemma_sort_desc_sorted(
                        self.spec_request().order_by,
                        self.spec_gathered(),
                    );
                }
                Ok(sorted)
            },
        }
    }
}

} // verus!
