//! Tests of the three built-in providers: request building, category
//! mapping, response parsing, sentinel filtering and numeric coercion.

use magneto::Category;
use magneto::ClientError;
use magneto::HttpMethod;
use magneto::Knaben;
use magneto::PirateBay;
use magneto::SearchRequest;
use magneto::Yts;

fn query_value(req: &magneto::WireRequest, key: &str) -> Option<String> {
    req.query.iter().find(|(k, _)| k == key).map(|(_, v)| v.clone())
}

#[test]
fn test_build_request_with_categories() {
    let provider = Knaben::new();
    let search_request = SearchRequest::new("ubuntu").add_category(Category::Movies);
    let request = provider.build_request(&search_request);

    assert_eq!(request.method, HttpMethod::Post);
    assert!(
        request
            .headers
            .iter()
            .any(|(k, v)| k == "content-type" && v == "application/json")
    );

    let body: serde_json::Value =
        serde_json::from_str(request.body.as_deref().expect("Body should be present"))
            .expect("Body should be valid JSON");
    assert_eq!(body["query"].as_str(), Some("ubuntu"));
    let codes = body["categories"].as_array().expect("categories should be an array");
    assert_eq!(codes.len(), 1);
    assert_eq!(codes[0].as_u64(), Some(3000000));
}

#[test]
fn test_build_request_without_categories() {
    let provider = Knaben::new();
    let search_request = SearchRequest::new("ubuntu");
    let request = provider.build_request(&search_request);

    assert_eq!(request.method, HttpMethod::Post);

    let body: serde_json::Value =
        serde_json::from_str(request.body.as_deref().expect("Body should be present"))
            .expect("Body should be valid JSON");
    assert_eq!(body["query"].as_str(), Some("ubuntu"));
    assert!(body.get("categories").expect("categories should be present").is_null());
}

#[test]
fn test_parse_response_valid() {
    let provider = Knaben::new();

    let response_body = r#"
    {
        "hits": [
            {
                "id": "1",
                "title": "Ubuntu ISO",
                "hash": "abc123",
                "peers": 10,
                "seeders": 20,
                "bytes": 2048,
                "date": "2024-01-01",
                "tracker": "knaben",
                "categoryId": [3000000]
            }
        ]
    }
    "#;

    let result = provider.parse_response(response_body);

    assert!(result.is_ok());
    let torrents = result.unwrap();
    assert_eq!(torrents.len(), 1);

    let torrent = &torrents[0];
    assert_eq!(torrent.name, "Ubuntu ISO");
    assert_eq!(torrent.magnet_link, "magnet:?xt=urn:btih:abc123");
    assert_eq!(torrent.seeders, 20);
    assert_eq!(torrent.peers, 10);
    assert_eq!(torrent.size_bytes, 2048);
    assert_eq!(torrent.provider, "knaben (via Knaben)");
}

#[test]
fn knaben_test_parse_response_invalid_json() {
    let provider = Knaben::new();

    let invalid_response_body = r#"not a valid json"#;

    let result = provider.parse_response(invalid_response_body);

    assert!(result.is_err());
    assert!(
        matches!(result.unwrap_err(), ClientError::DataParseError(_)),
        "Expected ClientError::DataParseError"
    );
}

#[test]
fn test_parse_response_invalid_entries() {
    let provider = Knaben::new();

    let response_body = r#"
    {
        "hits": [
            {
                "id": "1",
                "title": "Ubuntu ISO",
                "hash": null,
                "peers": 10,
                "seeders": 20,
                "bytes": 2048,
                "date": "2024-01-01",
                "tracker": "knaben",
                "categoryId": [3000000]
            }
        ]
    }
    "#;

    let result = provider.parse_response(response_body);

    assert!(result.is_ok());
    let torrents = result.unwrap();
    assert!(torrents.is_empty(), "Expected empty results due to invalid entries");
}

#[test]
fn test_parse_response_empty() {
    let provider = Knaben::new();

    let response_body = r#"{ "hits": [] }"#;

    let result = provider.parse_response(response_body);

    assert!(result.is_ok());
    let torrents = result.unwrap();
    assert!(torrents.is_empty(), "Expected empty results");
}

#[test]
fn test_build_request() {
    let provider = PirateBay::new();

    let search_request = SearchRequest::new("ubuntu").add_category(Category::Software);
    let request = provider.build_request(&search_request);

    assert_eq!(request.method, HttpMethod::Get);
    assert_eq!(query_value(&request, "q").as_deref(), Some("ubuntu"));
    assert_eq!(query_value(&request, "cat").as_deref(), Some("300"));
}

#[test]
fn piratebay_test_build_request_no_category() {
    let provider = PirateBay::new();

    let search_request = SearchRequest::new("ubuntu");
    let request = provider.build_request(&search_request);

    assert_eq!(query_value(&request, "q").as_deref(), Some("ubuntu"));
    assert!(query_value(&request, "cat").is_none());
}

#[test]
fn piratebay_test_parse_response() {
    let provider = PirateBay::new();

    let response_body = r#"
    [
        {
            "id": "1",
            "name": "Ubuntu ISO",
            "info_hash": "abc123",
            "leechers": "10",
            "seeders": "20",
            "num_files": "5",
            "size": "2048",
            "username": "user123",
            "added": "today",
            "status": "active",
            "category": "software",
            "imdb": ""
        }
    ]
    "#;

    let result = provider.parse_response(response_body);

    assert!(result.is_ok());
    let torrents = result.unwrap();
    assert_eq!(torrents.len(), 1);
    let torrent = &torrents[0];
    assert_eq!(torrent.name, "Ubuntu ISO");
    assert_eq!(torrent.magnet_link, "magnet:?xt=urn:btih:abc123");
    assert_eq!(torrent.seeders, 20);
    assert_eq!(torrent.peers, 10);
    assert_eq!(torrent.size_bytes, 2048);
    assert_eq!(torrent.provider, "piratebay");
}

#[test]
fn piratebay_test_parse_response_invalid_json() {
    let provider = PirateBay::new();

    let invalid_response_body = r#"not a valid json"#;

    let result = provider.parse_response(invalid_response_body);

    assert!(result.is_err());
    if let ClientError::DataParseError(e) = result.unwrap_err() {
        assert!(e.contains("expected ident at line 1 column 2"));
    } else {
        panic!("Expected ClientError::DataParseError");
    }
}

#[test]
fn test_parse_response_invalid_entry() {
    let provider = PirateBay::new();

    let response_body = r#"
    [
        {
            "id": "1",
            "name": "Invalid Torrent",
            "info_hash": "abc123",
            "leechers": "invalid",
            "seeders": "20",
            "num_files": "5",
            "size": "2048",
            "username": "user123",
            "added": "today",
            "status": "active",
            "category": "software",
            "imdb": ""
        }
    ]
    "#;

    let result = provider.parse_response(response_body);

    assert!(result.is_ok());
    let torrents = result.unwrap();
    assert!(torrents.is_empty(), "Expected empty results due to invalid leechers");
}

#[test]
fn test_parse_empty_response() {
    let provider = PirateBay::new();

    let response_body = r#"
    [
        {
            "id": "0",
            "name": "No results returned",
            "info_hash": "0000000000000000000000000000000000000000",
            "leechers": "0",
            "seeders": "0",
            "num_files": "0",
            "size": "0",
            "username": "",
            "added": "",
            "status": "",
            "category": "",
            "imdb": ""
        }
    ]
    "#;

    let result = provider.parse_response(response_body);

    assert!(result.is_ok());
    let torrents = result.unwrap();
    assert!(torrents.is_empty(), "Expected empty results due to invalid entry");
}

#[test]
fn test_build_request_with_category() {
    let provider = Yts::new();

    let search_request = SearchRequest::new("Inception").add_category(Category::Movies);
    let request = provider.build_request(&search_request);

    assert_eq!(request.method, HttpMethod::Get);
    assert_eq!(query_value(&request, "query_term").as_deref(), Some("Inception"));
    assert_eq!(query_value(&request, "genre").as_deref(), Some("movie"));
}

#[test]
fn yts_test_build_request_no_category() {
    let provider = Yts::new();

    let search_request = SearchRequest::new("Inception");
    let request = provider.build_request(&search_request);

    assert_eq!(query_value(&request, "query_term").as_deref(), Some("Inception"));
    assert!(query_value(&request, "genre").is_none());
}

#[test]
fn yts_test_parse_response() {
    let provider = Yts::new();

    let response_body = r#"
    {
        "status": "ok",
        "status_message": "Query was successful",
        "data": {
            "movies": [
                {
                    "title": "Inception",
                    "torrents": [
                        {
                            "hash": "abc123",
                            "seeds": 200,
                            "peers": 50,
                            "size": "1.5GB"
                        }
                    ]
                }
            ]
        }
    }
    "#;

    let result = provider.parse_response(response_body);

    assert!(result.is_ok());
    let torrents = result.unwrap();
    assert_eq!(torrents.len(), 1);
    let torrent = &torrents[0];
    assert_eq!(torrent.name, "Inception");
    assert_eq!(torrent.magnet_link, "magnet:?xt=urn:btih:abc123");
    assert_eq!(torrent.seeders, 200);
    assert_eq!(torrent.peers, 50);
    assert_eq!(torrent.size_bytes, 1_500_000_000);
    assert_eq!(torrent.provider, "yts");
}

#[test]
fn yts_test_parse_response_invalid_json() {
    let provider = Yts::new();

    let invalid_response_body = r#"not valid json"#;

    let result = provider.parse_response(invalid_response_body);

    assert!(result.is_err());
    assert!(
        matches!(result.unwrap_err(), ClientError::DataParseError(_)),
        "Expected ClientError::DataParseError"
    );
}

#[test]
fn test_parse_response_empty_data() {
    let provider = Yts::new();

    let response_body = r#"
    {
        "status": "ok",
        "status_message": "Query was successful",
        "data": {
            "movie_count": 0,
            "limit": 20,
            "page_number": 1
        }
    }
    "#;

    let result = provider.parse_response(response_body);

    assert!(result.is_ok());
    let torrents = result.unwrap();
    assert!(torrents.is_empty(), "Expected empty results due to no movies");
}
