use admin_gateway::blocking::{blocking_state_json, BlockingState};
use admin_gateway::gateway::{
    asset_rel_path, asset_response, get_mime_type, handle_api_request, is_api_path, Method,
    Response, ResponseBody,
};
use admin_gateway::stats::{statistics_to_json, Statistics};

fn sample_stats() -> Statistics {
    Statistics {
        proxied_requests: Some(120),
        blocked_requests: Some(30),
        modified_responses: None,
        top_blocked_paths: vec![
            (String::from("/ads/banner.js"), 17),
            (String::from("/track"), 4),
        ],
        top_clients: vec![(String::from("192.168.1.10"), 99)],
    }
}

fn body_text(resp: &Response) -> &str {
    match &resp.body {
        ResponseBody::Text(s) => s.as_str(),
        ResponseBody::Bytes(_) => panic!("expected a text body"),
    }
}

#[test]
fn blocking_write_then_read_enabled() {
    let stats = sample_stats();
    let (resp, action) = handle_api_request(
        Method::Post,
        "/api/blocking",
        b"{\"state\":\"Enabled\"}",
        &stats,
        BlockingState::Disabled,
    );
    assert_eq!(resp.status, 200);
    assert_eq!(resp.content_type, "application/json");
    assert_eq!(body_text(&resp), "{\"state\":\"Enabled\"}");
    assert_eq!(action, Some(BlockingState::Enabled));

    let (read, read_action) =
        handle_api_request(Method::Get, "/api/blocking", b"", &stats, BlockingState::Enabled);
    assert_eq!(read.status, 200);
    assert_eq!(body_text(&read), "{\"state\":\"Enabled\"}");
    assert_eq!(read_action, None);
}

#[test]
fn blocking_write_then_read_disabled() {
    let stats = sample_stats();
    let (resp, action) = handle_api_request(
        Method::Post,
        "/api/blocking",
        b"{\"state\":\"Disabled\"}",
        &stats,
        BlockingState::Enabled,
    );
    assert_eq!(resp.status, 200);
    assert_eq!(body_text(&resp), "{\"state\":\"Disabled\"}");
    assert_eq!(action, Some(BlockingState::Disabled));

    let (read, _) =
        handle_api_request(Method::Get, "/api/blocking", b"", &stats, BlockingState::Disabled);
    assert_eq!(read.status, 200);
    assert_eq!(body_text(&read), "{\"state\":\"Disabled\"}");
}

#[test]
fn post_unrecognized_state_rejected() {
    let stats = sample_stats();
    let (resp, action) = handle_api_request(
        Method::Post,
        "/api/blocking",
        b"{\"state\":\"Bogus\"}",
        &stats,
        BlockingState::Enabled,
    );
    assert_eq!(resp.status, 400);
    assert_eq!(body_text(&resp), "{}");
    assert_eq!(action, None);

    let (read, _) =
        handle_api_request(Method::Get, "/api/blocking", b"", &stats, BlockingState::Enabled);
    assert_eq!(body_text(&read), "{\"state\":\"Enabled\"}");
}

#[test]
fn post_missing_state_rejected() {
    let stats = sample_stats();
    let (resp, action) =
        handle_api_request(Method::Post, "/api/blocking", b"{}", &stats, BlockingState::Disabled);
    assert_eq!(resp.status, 400);
    assert_eq!(body_text(&resp), "{}");
    assert_eq!(action, None);
}

#[test]
fn post_invalid_json_rejected() {
    let stats = sample_stats();
    let (resp, action) = handle_api_request(
        Method::Post,
        "/api/blocking",
        b"state=Enabled",
        &stats,
        BlockingState::Disabled,
    );
    assert_eq!(resp.status, 400);
    assert_eq!(body_text(&resp), "{}");
    assert_eq!(action, None);
}

#[test]
fn post_non_string_state_rejected() {
    let stats = sample_stats();
    let (resp, action) = handle_api_request(
        Method::Post,
        "/api/blocking",
        b"{\"state\":true}",
        &stats,
        BlockingState::Disabled,
    );
    assert_eq!(resp.status, 400);
    assert_eq!(action, None);
}

#[test]
fn post_state_among_other_members_accepted() {
    let stats = sample_stats();
    let (resp, action) = handle_api_request(
        Method::Post,
        "/api/blocking",
        b"{\"first\":1,\"state\":\"Enabled\",\"nested\":{\"x\":[2,3]}}",
        &stats,
        BlockingState::Disabled,
    );
    assert_eq!(resp.status, 200);
    assert_eq!(body_text(&resp), "{\"state\":\"Enabled\"}");
    assert_eq!(action, Some(BlockingState::Enabled));
}

#[test]
fn unknown_api_route_not_found() {
    let stats = sample_stats();
    let (resp, action) =
        handle_api_request(Method::Get, "/api/unknown", b"", &stats, BlockingState::Enabled);
    assert_eq!(resp.status, 404);
    assert_eq!(resp.content_type, "application/json");
    assert_eq!(body_text(&resp), "{\"status\":404,\"message\":\"Not Found\"}");
    assert_eq!(action, None);
}

#[test]
fn method_mismatch_is_not_found() {
    let stats = sample_stats();
    let (post_stats, _) =
        handle_api_request(Method::Post, "/api/statistics", b"", &stats, BlockingState::Enabled);
    assert_eq!(post_stats.status, 404);
    let (other, _) =
        handle_api_request(Method::Other, "/api/blocking", b"", &stats, BlockingState::Enabled);
    assert_eq!(other.status, 404);
}

#[test]
fn get_statistics_serializes_snapshot() {
    let stats = sample_stats();
    let (resp, action) =
        handle_api_request(Method::Get, "/api/statistics", b"", &stats, BlockingState::Enabled);
    assert_eq!(resp.status, 200);
    assert_eq!(resp.content_type, "application/json");
    assert_eq!(
        body_text(&resp),
        "{\"proxied_requests\":120,\"blocked_requests\":30,\
         \"top_blocked_paths\":{\"/ads/banner.js\":17,\"/track\":4},\
         \"top_clients\":{\"192.168.1.10\":99}}"
    );
    assert_eq!(action, None);
}

#[test]
fn statistics_json_with_all_counters() {
    let stats = Statistics {
        proxied_requests: Some(1),
        blocked_requests: Some(0),
        modified_responses: Some(18446744073709551615),
        top_blocked_paths: vec![],
        top_clients: vec![],
    };
    assert_eq!(
        statistics_to_json(&stats),
        "{\"proxied_requests\":1,\"blocked_requests\":0,\
         \"modified_responses\":18446744073709551615,\
         \"top_blocked_paths\":{},\"top_clients\":{}}"
    );
}

#[test]
fn statistics_json_escapes_keys() {
    let stats = Statistics {
        proxied_requests: None,
        blocked_requests: None,
        modified_responses: None,
        top_blocked_paths: vec![(String::from("a\"b\\c\nd"), 2)],
        top_clients: vec![],
    };
    assert_eq!(
        statistics_to_json(&stats),
        "{\"top_blocked_paths\":{\"a\\\"b\\\\c\\u000ad\":2},\"top_clients\":{}}"
    );
}

#[test]
fn statistics_json_is_valid_json() {
    let text = statistics_to_json(&sample_stats());
    let value: serde_json::Value = serde_json::from_str(&text).expect("the body parses");
    assert_eq!(value.get("proxied_requests").and_then(|v| v.as_u64()), Some(120));
    assert_eq!(value.get("modified_responses"), None);
    let paths = value.get("top_blocked_paths").and_then(|v| v.as_object()).unwrap();
    assert_eq!(paths.get("/ads/banner.js").and_then(|v| v.as_u64()), Some(17));
}

#[test]
fn mime_types_follow_extensions() {
    assert_eq!(get_mime_type("dist/logo.png"), "image");
    assert_eq!(get_mime_type("dist/photo.jpg"), "image/jpeg");
    assert_eq!(get_mime_type("dist/data.json"), "application/json");
    assert_eq!(get_mime_type("dist/app.js"), "text/javascript");
    assert_eq!(get_mime_type("dist/index.html"), "text/html");
    assert_eq!(get_mime_type("dist/style.css"), "text/css");
    assert_eq!(get_mime_type("dist/app.wasm"), "application/wasm");
    assert_eq!(get_mime_type("dist/unknown.xyz"), "text/plain");
    assert_eq!(get_mime_type("README"), "text/plain");
    assert_eq!(get_mime_type("oddname."), "text/plain");
}

#[test]
fn api_paths_are_recognized() {
    assert!(is_api_path("/api/blocking"));
    assert!(is_api_path("/api/"));
    assert!(!is_api_path("/api"));
    assert!(!is_api_path("/"));
    assert!(!is_api_path("/index.html"));
}

#[test]
fn root_path_resolves_to_index() {
    assert_eq!(asset_rel_path("/"), "index.html");
    assert_eq!(asset_rel_path("/app.js"), "app.js");
    assert_eq!(asset_rel_path("/assets/logo.png"), "assets/logo.png");
}

#[test]
fn existing_asset_is_served_with_its_type() {
    let contents = b"<html><body>dashboard</body></html>".to_vec();
    let resp = asset_response("dist/index.html", Some(contents.clone()));
    assert_eq!(resp.status, 200);
    assert_eq!(resp.content_type, "text/html");
    match resp.body {
        ResponseBody::Bytes(b) => assert_eq!(b, contents),
        ResponseBody::Text(_) => panic!("expected the file bytes"),
    }
}

#[test]
fn missing_asset_is_plain_not_found() {
    let resp = asset_response("dist/index.html", None);
    assert_eq!(resp.status, 404);
    assert_eq!(resp.content_type, "text/plain");
    assert_eq!(body_text(&resp), "Not Found");
}

#[test]
fn asset_content_types_for_dashboard_files() {
    let js = asset_response("dist/app.js", Some(b"console.log(1)".to_vec()));
    assert_eq!(js.content_type, "text/javascript");
    let wasm = asset_response("dist/app.wasm", Some(vec![0, 97, 115, 109]));
    assert_eq!(wasm.content_type, "application/wasm");
    let other = asset_response("dist/unknown.xyz", Some(vec![1, 2, 3]));
    assert_eq!(other.content_type, "text/plain");
}

#[test]
fn setting_the_same_state_twice_is_observably_idempotent() {
    let stats = sample_stats();
    let body: &[u8] = b"{\"state\":\"Enabled\"}";
    let (first, first_action) =
        handle_api_request(Method::Post, "/api/blocking", body, &stats, BlockingState::Enabled);
    let (second, second_action) =
        handle_api_request(Method::Post, "/api/blocking", body, &stats, BlockingState::Enabled);
    assert_eq!(first.status, 200);
    assert_eq!(second.status, 200);
    assert_eq!(body_text(&first), body_text(&second));
    assert_eq!(first_action, second_action);
}

#[test]
fn blocking_state_json_bodies() {
    assert_eq!(blocking_state_json(BlockingState::Enabled), "{\"state\":\"Enabled\"}");
    assert_eq!(blocking_state_json(BlockingState::Disabled), "{\"state\":\"Disabled\"}");
}
