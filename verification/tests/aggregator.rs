//! Tests of the registry and of the search dispatch: deduplication by id,
//! the status classification, the short-circuit error policy, and the
//! merged, descending, stable ordering of results.

use magneto::Category;
use magneto::ClientError;
use magneto::Knaben;
use magneto::Magneto;
use magneto::OrderBy;
use magneto::PirateBay;
use magneto::Provider;
use magneto::SearchRequest;
use magneto::Torrent;
use magneto::TransportEvent;
use magneto::Yts;

fn piratebay_row(name: &str, hash: &str, seeders: u32, leechers: u32, size: u64) -> String {
    format!(
        "{{\"id\":\"1\",\"name\":\"{}\",\"info_hash\":\"{}\",\"leechers\":\"{}\",\"seeders\":\"{}\",\"num_files\":\"1\",\"size\":\"{}\",\"username\":\"u\",\"added\":\"today\",\"status\":\"active\",\"category\":\"101\",\"imdb\":\"\"}}",
        name, hash, leechers, seeders, size
    )
}

fn run_search(providers: Vec<Provider>, request: SearchRequest, bodies: Vec<(u16, String)>) -> Result<Vec<Torrent>, ClientError> {
    let magneto = Magneto::with_providers(providers);
    let mut session = magneto.start_search(request);
    let mut outcomes = bodies.into_iter();
    while session.current_request().is_some() {
        let (status, body) = outcomes.next().expect("an outcome for every request");
        session.on_event(TransportEvent::Response { status, body });
    }
    session.finish()
}

#[test]
fn test_send_request_success() {
    let body = format!("[{}]", piratebay_row("Ubuntu ISO", "abc123", 20, 10, 2048));
    let result = run_search(
        vec![Provider::PirateBay(PirateBay::new())],
        SearchRequest::new("ubuntu"),
        vec![(200, body)],
    );

    assert!(result.is_ok());
    let torrents = result.unwrap();
    assert_eq!(torrents.len(), 1);

    let torrent = &torrents[0];
    assert_eq!(torrent.name, "Ubuntu ISO");
    assert_eq!(torrent.magnet_link, "magnet:?xt=urn:btih:abc123");
    assert_eq!(torrent.seeders, 20);
    assert_eq!(torrent.peers, 10);
    assert_eq!(torrent.size_bytes, 2048);
    assert_eq!(torrent.provider, "piratebay");
}

#[test]
fn test_send_request_error_response() {
    let result = run_search(
        vec![Provider::PirateBay(PirateBay::new())],
        SearchRequest::new("ubuntu"),
        vec![(500, "Internal Server Error".to_string())],
    );

    assert!(result.is_err());
    if let ClientError::ServerResponseError { code, content } = result.unwrap_err() {
        assert_eq!(code, 500);
        assert_eq!(content, "Internal Server Error");
    } else {
        panic!("Expected ServerResponseError");
    }
}

#[test]
fn registry_keeps_one_entry_per_id() {
    let magneto = Magneto::with_providers(vec![
        Provider::Knaben(Knaben::new()),
        Provider::Knaben(Knaben::new()),
    ]);
    assert_eq!(magneto.active_providers().len(), 1);

    let magneto = Magneto::default()
        .add_provider(Provider::Yts(Yts::new()))
        .add_provider(Provider::Yts(Yts::new()));
    assert_eq!(magneto.active_providers().len(), 1);
}

#[test]
fn registry_removes_only_present_ids() {
    let mut magneto = Magneto::new();
    assert_eq!(magneto.active_providers().len(), 3);

    let removed = magneto.remove_provider("https://apibay.org/q.php");
    assert!(removed);
    assert_eq!(magneto.active_providers().len(), 2);

    let removed = magneto.remove_provider("https://example.org/nowhere");
    assert!(!removed);
    assert_eq!(magneto.active_providers().len(), 2);
}

#[test]
fn default_registry_holds_the_three_sources() {
    let magneto = Magneto::new();
    let ids: Vec<String> = magneto.active_providers().iter().map(|p| p.id()).collect();
    assert_eq!(
        ids,
        vec![
            "https://api.knaben.eu/v1".to_string(),
            "https://apibay.org/q.php".to_string(),
            "https://yts.mx/api/v2/list_movies.json".to_string(),
        ]
    );
}

#[test]
fn search_merges_and_sorts_by_seeders() {
    let first = format!(
        "[{},{}]",
        piratebay_row("low", "aaa", 5, 1, 10),
        piratebay_row("high", "bbb", 90, 2, 20)
    );
    let second = r#"
    {
        "data": {
            "movies": [
                {
                    "title": "mid",
                    "torrents": [
                        { "hash": "ccc", "seeds": 40, "peers": 3, "size": "700MB" }
                    ]
                }
            ]
        }
    }
    "#
    .to_string();

    let result = run_search(
        vec![
            Provider::PirateBay(PirateBay::new()),
            Provider::Yts(Yts::new()),
        ],
        SearchRequest::new("anything"),
        vec![(200, first), (200, second)],
    );

    let torrents = result.unwrap();
    let names: Vec<&str> = torrents.iter().map(|t| t.name.as_str()).collect();
    assert_eq!(names, vec!["high", "mid", "low"]);
    assert!(torrents.windows(2).all(|w| w[0].seeders >= w[1].seeders));
}

#[test]
fn search_sorts_by_peers_when_asked() {
    let body = format!(
        "[{},{},{}]",
        piratebay_row("a", "aaa", 1, 5, 10),
        piratebay_row("b", "bbb", 2, 50, 20),
        piratebay_row("c", "ccc", 3, 25, 30)
    );
    let mut request = SearchRequest::new("anything");
    request.order_by = OrderBy::Peers;

    let result = run_search(
        vec![Provider::PirateBay(PirateBay::new())],
        request,
        vec![(200, body)],
    );

    let torrents = result.unwrap();
    let peers: Vec<u32> = torrents.iter().map(|t| t.peers).collect();
    assert_eq!(peers, vec![50, 25, 5]);
}

#[test]
fn sort_is_stable_for_equal_keys() {
    let first = format!(
        "[{},{}]",
        piratebay_row("first-of-equals", "aaa", 7, 0, 10),
        piratebay_row("second-of-equals", "bbb", 7, 0, 20)
    );
    let second = format!("[{}]", piratebay_row("third-of-equals", "ccc", 7, 0, 30));

    let piratebay_mirror = PirateBay::with_url("https://example.org/mirror".to_string());
    let result = run_search(
        vec![
            Provider::PirateBay(PirateBay::new()),
            Provider::PirateBay(piratebay_mirror),
        ],
        SearchRequest::new("anything"),
        vec![(200, first), (200, second)],
    );

    let torrents = result.unwrap();
    let names: Vec<&str> = torrents.iter().map(|t| t.name.as_str()).collect();
    assert_eq!(names, vec!["first-of-equals", "second-of-equals", "third-of-equals"]);
}

#[test]
fn first_failure_aborts_the_whole_search() {
    let magneto = Magneto::with_providers(vec![
        Provider::PirateBay(PirateBay::new()),
        Provider::Yts(Yts::new()),
    ]);
    let mut session = magneto.start_search(SearchRequest::new("anything"));

    assert!(session.current_request().is_some());
    session.on_event(TransportEvent::Response { status: 503, body: "down".to_string() });
    assert!(session.current_request().is_none(), "no further requests after a failure");

    let result = session.finish();
    assert!(matches!(
        result.unwrap_err(),
        ClientError::ServerResponseError { code: 503, .. }
    ));
}

#[test]
fn transport_failure_becomes_response_error() {
    let magneto = Magneto::with_providers(vec![Provider::Knaben(Knaben::new())]);
    let mut session = magneto.start_search(SearchRequest::new("anything"));

    assert!(session.current_request().is_some());
    session.on_event(TransportEvent::TransportFailed { message: "connection refused".to_string() });

    if let ClientError::ResponseError(m) = session.finish().unwrap_err() {
        assert_eq!(m, "connection refused");
    } else {
        panic!("Expected ResponseError");
    }
}

#[test]
fn build_failure_becomes_request_build_error() {
    let magneto = Magneto::with_providers(vec![Provider::Yts(Yts::new())]);
    let mut session = magneto.start_search(SearchRequest::new("anything"));

    assert!(session.current_request().is_some());
    session.on_event(TransportEvent::BuildFailed { message: "relative URL".to_string() });

    if let ClientError::RequestBuildError { source, url } = session.finish().unwrap_err() {
        assert_eq!(source, "relative URL");
        assert_eq!(url, "https://yts.mx/api/v2/list_movies.json");
    } else {
        panic!("Expected RequestBuildError");
    }
}

#[test]
fn empty_piratebay_array_is_a_success() {
    let result = run_search(
        vec![Provider::PirateBay(PirateBay::new())],
        SearchRequest::new("anything"),
        vec![(200, "[]".to_string())],
    );
    assert!(result.unwrap().is_empty());
}

#[test]
fn search_with_no_providers_succeeds_empty() {
    let result = run_search(vec![], SearchRequest::new("anything"), vec![]);
    assert!(result.unwrap().is_empty());
}

#[test]
fn request_builders_deduplicate_categories() {
    let request = SearchRequest::new("example query")
        .add_category(Category::Movies)
        .add_category(Category::Movies);
    assert_eq!(request.categories, vec![Category::Movies]);

    let request = SearchRequest::new("example query").add_categories(vec![
        Category::Movies,
        Category::Anime,
        Category::Anime,
    ]);
    assert_eq!(request.categories, vec![Category::Movies, Category::Anime]);
}

#[test]
fn default_constructors_address_the_public_apis() {
    assert_eq!(Knaben::default().id(), "https://api.knaben.eu/v1");
    assert_eq!(PirateBay::default().id(), "https://apibay.org/q.php");
    assert_eq!(Yts::default().id(), "https://yts.mx/api/v2/list_movies.json");
    assert_eq!(Knaben::with_url("https://example.org/knaben".to_string()).id(), "https://example.org/knaben");
    assert_eq!(Yts::with_url("https://example.org/yts".to_string()).id(), "https://example.org/yts");
    assert!(Magneto::default().active_providers().is_empty());
}

#[test]
fn search_request_defaults() {
    let request = SearchRequest::new("example");
    assert_eq!(request.query, "example");
    assert!(matches!(request.order_by, OrderBy::Seeders));
    assert!(request.categories.is_empty());
    assert_eq!(request.number_of_results, 50);
    assert_eq!(OrderBy::Seeders.as_str(), "seeders");
    assert_eq!(OrderBy::Peers.as_str(), "peers");
}
