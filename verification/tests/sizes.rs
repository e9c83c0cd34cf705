//! Tests of the numeric edges: human-readable size strings, decimal
//! coercion of text fields, and JSON escaping of the query.

use magneto::Category;
use magneto::Knaben;
use magneto::PirateBay;
use magneto::SearchRequest;
use magneto::search_providers::yts::YtsTorrent;

fn size_of(text: &str) -> u64 {
    let torrent = YtsTorrent {
        hash: "h".to_string(),
        seeds: 0,
        peers: 0,
        size: text.to_string(),
    };
    torrent.size_bytes()
}

#[test]
fn size_strings_use_decimal_multipliers() {
    assert_eq!(size_of("1.5GB"), 1_500_000_000);
    assert_eq!(size_of("700MB"), 700_000_000);
    assert_eq!(size_of("2GB"), 2_000_000_000);
    assert_eq!(size_of("0.001GB"), 1_000_000);
}

#[test]
fn size_strings_ignore_case_of_the_unit() {
    assert_eq!(size_of("1.5gb"), 1_500_000_000);
    assert_eq!(size_of("700mb"), 700_000_000);
    assert_eq!(size_of("3Gb"), 3_000_000_000);
    assert_eq!(size_of("4mB"), 4_000_000);
}

#[test]
fn unrecognized_units_mean_zero_bytes() {
    assert_eq!(size_of("10KB"), 0);
    assert_eq!(size_of("10TB"), 0);
    assert_eq!(size_of("700"), 0);
    assert_eq!(size_of(""), 0);
    assert_eq!(size_of("GB"), 0);
}

#[test]
fn malformed_numbers_mean_zero_bytes() {
    assert_eq!(size_of("1.2.3GB"), 0);
    assert_eq!(size_of("1,5GB"), 0);
    assert_eq!(size_of(".GB"), 0);
    assert_eq!(size_of("-1GB"), 0);
}

#[test]
fn fractions_truncate_to_whole_bytes() {
    assert_eq!(size_of(".5GB"), 500_000_000);
    assert_eq!(size_of("1.GB"), 1_000_000_000);
    assert_eq!(size_of("0.0000000001GB"), 0);
    assert_eq!(size_of("1.0000000019GB"), 1_000_000_001);
}

#[test]
fn huge_sizes_saturate() {
    assert_eq!(size_of("99999999999999999999999GB"), u64::MAX);
}

fn text_row(seeders: &str, leechers: &str, size: &str) -> String {
    format!(
        "{{\"id\":\"1\",\"name\":\"n\",\"info_hash\":\"h\",\"leechers\":\"{}\",\"seeders\":\"{}\",\"num_files\":\"1\",\"size\":\"{}\",\"username\":\"u\",\"added\":\"\",\"status\":\"\",\"category\":\"\",\"imdb\":\"\"}}",
        leechers, seeders, size
    )
}

fn single_row_response(seeders: &str, leechers: &str, size: &str) -> String {
    format!("[{}]", text_row(seeders, leechers, size))
}

#[test]
fn count_coercion_accepts_what_a_decimal_parse_accepts() {
    let provider = PirateBay::new();

    let parsed = provider.parse_response(&single_row_response("007", "+3", "18446744073709551615")).unwrap();
    assert_eq!(parsed.len(), 1);
    assert_eq!(parsed[0].seeders, 7);
    assert_eq!(parsed[0].peers, 3);
    assert_eq!(parsed[0].size_bytes, u64::MAX);

    // One digit too many for a 64-bit size: the row alone is dropped.
    let parsed = provider.parse_response(&single_row_response("1", "1", "18446744073709551616")).unwrap();
    assert!(parsed.is_empty());

    // A count beyond the 32-bit range excludes the row as well.
    let parsed = provider.parse_response(&single_row_response("4294967296", "1", "10")).unwrap();
    assert!(parsed.is_empty());
}

#[test]
fn bad_rows_do_not_abort_the_batch() {
    let provider = PirateBay::new();
    let body = format!(
        "[{},{},{}]",
        text_row("20", "10", "2048"),
        text_row("oops", "10", "2048"),
        text_row("30", "10", "4096")
    );
    let parsed = provider.parse_response(&body).unwrap();
    assert_eq!(parsed.len(), 2);
    assert_eq!(parsed[0].seeders, 20);
    assert_eq!(parsed[1].seeders, 30);
}

#[test]
fn query_text_is_escaped_in_the_knaben_body() {
    let provider = Knaben::new();
    let query = "a \"quoted\"\\ query\nwith control\tchars";
    let request = provider.build_request(&SearchRequest::new(query).add_category(Category::Audio));

    let body: serde_json::Value =
        serde_json::from_str(request.body.as_deref().unwrap()).expect("body must stay valid JSON");
    assert_eq!(body["query"].as_str(), Some(query));
    assert_eq!(body["order_by"].as_str(), Some("seeders"));
    assert_eq!(body["order_direction"].as_str(), Some("desc"));
    assert_eq!(body["search_type"].as_str(), Some("score"));
    assert_eq!(body["search_field"].as_str(), Some("title"));
    assert_eq!(body["size"].as_u64(), Some(50));
    assert_eq!(body["hide_unsafe"].as_bool(), Some(true));
    assert_eq!(body["hide_xxx"].as_bool(), Some(true));
    assert_eq!(body["seconds_since_last_seen"].as_u64(), Some(86400));
}

#[test]
fn adult_category_disables_the_hide_flag() {
    let provider = Knaben::new();
    let request = provider.build_request(
        &SearchRequest::new("q").add_categories(vec![Category::Games, Category::Xxx]),
    );
    let body: serde_json::Value = serde_json::from_str(request.body.as_deref().unwrap()).unwrap();
    assert_eq!(body["hide_xxx"].as_bool(), Some(false));
    let codes: Vec<u64> = body["categories"]
        .as_array()
        .unwrap()
        .iter()
        .map(|c| c.as_u64().unwrap())
        .collect();
    assert_eq!(codes, vec![4001000, 5000000]);
}

#[test]
fn knaben_maps_every_category_to_its_code() {
    let provider = Knaben::new();
    let request = provider.build_request(&SearchRequest::new("q").add_categories(vec![
        Category::Movies,
        Category::TvShows,
        Category::Games,
        Category::Software,
        Category::Audio,
        Category::Anime,
        Category::Xxx,
    ]));
    let body: serde_json::Value = serde_json::from_str(request.body.as_deref().unwrap()).unwrap();
    let codes: Vec<u64> = body["categories"]
        .as_array()
        .unwrap()
        .iter()
        .map(|c| c.as_u64().unwrap())
        .collect();
    assert_eq!(codes, vec![3000000, 2000000, 4001000, 4002000, 1000000, 6000000, 5000000]);
}

#[test]
fn yts_applies_the_first_recognized_category() {
    let provider = magneto::Yts::new();

    // a category YTS cannot express is ignored, not applied
    let request = provider.build_request(
        &SearchRequest::new("q").add_categories(vec![Category::Games, Category::Anime]),
    );
    let genre = request.query.iter().find(|(k, _)| k == "genre").map(|(_, v)| v.clone());
    assert_eq!(genre.as_deref(), Some("anime"));

    let request = provider.build_request(
        &SearchRequest::new("q").add_categories(vec![Category::TvShows, Category::Software]),
    );
    assert!(request.query.iter().all(|(k, _)| k != "genre"));
}

#[test]
fn piratebay_joins_category_codes_with_commas() {
    let provider = PirateBay::new();
    let request = provider.build_request(
        &SearchRequest::new("q").add_categories(vec![Category::Movies, Category::Audio]),
    );
    let cat = request
        .query
        .iter()
        .find(|(k, _)| k == "cat")
        .map(|(_, v)| v.clone())
        .unwrap();
    assert_eq!(cat, "201,202,207,209,211,100");
}
