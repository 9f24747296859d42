use admin_gateway::blocking::{blocking_state_json, BlockingState};
use admin_gateway::client::{parse_blocking_response, API};
use admin_gateway::decode::parse_statistics;
use admin_gateway::stats::{statistics_to_json, Statistics};

#[test]
fn client_derives_host_and_port_from_page_url() {
    let api = API::from_href("http://localhost:8080/index.html").expect("a client");
    assert_eq!(api.hostname, "localhost");
    assert_eq!(api.port, 8080);
    assert_eq!(api.endpoint, "api");
}

#[test]
fn client_uses_the_scheme_default_port() {
    let api = API::from_href("https://dashboard.example.com/").expect("a client");
    assert_eq!(api.hostname, "dashboard.example.com");
    assert_eq!(api.port, 443);
}

#[test]
fn unparsable_page_url_yields_no_client() {
    assert!(API::from_href("not a url at all").is_none());
    assert!(API::from_href("data:text/plain,hello").is_none());
}

#[test]
fn call_urls_carry_the_api_prefix() {
    let api = API::new(String::from("localhost"), 8080, String::from("api"));
    assert_eq!(api.url_for("/statistics"), "http://localhost:8080/api/statistics");
    assert_eq!(api.url_for("/blocking"), "http://localhost:8080/api/blocking");
}

#[test]
fn blocking_bodies_decode_to_their_state() {
    for state in [BlockingState::Enabled, BlockingState::Disabled] {
        let body = blocking_state_json(state);
        assert_eq!(parse_blocking_response(body.as_str()), Some(state));
    }
    assert_eq!(parse_blocking_response("{\"state\":\"Bogus\"}"), None);
    assert_eq!(parse_blocking_response(""), None);
}

#[test]
fn blocking_state_maps_to_store_booleans() {
    assert_eq!(BlockingState::from_enabled(true), BlockingState::Enabled);
    assert_eq!(BlockingState::from_enabled(false), BlockingState::Disabled);
    assert!(BlockingState::Enabled.to_enabled());
    assert!(!BlockingState::Disabled.to_enabled());
    assert_eq!(BlockingState::Enabled.name(), "Enabled");
    assert_eq!(BlockingState::Disabled.name(), "Disabled");
}

#[test]
fn snapshot_round_trips_through_the_decoder() {
    let original = Statistics {
        proxied_requests: Some(7),
        blocked_requests: None,
        modified_responses: Some(2),
        top_blocked_paths: vec![(String::from("/ads.js"), 5), (String::from("/pixel"), 1)],
        top_clients: vec![(String::from("10.0.0.2"), 3)],
    };
    let text = statistics_to_json(&original);
    let decoded = parse_statistics(&text).expect("the serialized snapshot decodes");

    assert_eq!(decoded.proxied_requests, original.proxied_requests);
    assert_eq!(decoded.blocked_requests, original.blocked_requests);
    assert_eq!(decoded.modified_responses, original.modified_responses);
    assert_eq!(decoded.top_blocked_paths, original.top_blocked_paths);
    assert_eq!(decoded.top_clients, original.top_clients);
}

#[test]
fn escaped_keys_round_trip_through_the_decoder() {
    let original = Statistics {
        proxied_requests: None,
        blocked_requests: None,
        modified_responses: None,
        top_blocked_paths: vec![(String::from("a\"b\\c\nd\te"), 11)],
        top_clients: vec![],
    };
    let text = statistics_to_json(&original);
    let decoded = parse_statistics(&text).expect("the serialized snapshot decodes");
    assert_eq!(decoded.top_blocked_paths, original.top_blocked_paths);
    assert_eq!(decoded.top_clients, original.top_clients);
}

#[test]
fn decoder_rejects_malformed_bodies() {
    assert!(parse_statistics("").is_none());
    assert!(parse_statistics("[]").is_none());
    assert!(parse_statistics("{\"top_blocked_paths\":{}}").is_none());
    assert!(parse_statistics("{\"top_blocked_paths\":{},\"top_clients\":{}} ").is_none());
    assert!(parse_statistics("{\"proxied_requests\":99}").is_none());
}

#[test]
fn decoder_accepts_the_empty_snapshot() {
    let empty = parse_statistics("{\"top_blocked_paths\":{},\"top_clients\":{}}")
        .expect("the empty snapshot decodes");
    assert_eq!(empty.proxied_requests, None);
    assert_eq!(empty.blocked_requests, None);
    assert_eq!(empty.modified_responses, None);
    assert!(empty.top_blocked_paths.is_empty());
    assert!(empty.top_clients.is_empty());
}
