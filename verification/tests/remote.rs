use memoria_core::cli::Ids;
use memoria_core::payload::Payload;
use memoria_core::remote::{
    build_add_request, build_delete_all_request, build_list_query, build_search_request, build_update_request, classify, error_message,
    RemoteClient, Reply, Trouble,
};

fn alice() -> Ids {
    Ids { user_id: Some("alice".to_string()), agent_id: None, run_id: None }
}

#[test]
fn remote_client_trims_a_trailing_slash_from_the_configured_server_url() {
    let client = RemoteClient::new("http://127.0.0.1:8080/", None);
    assert_eq!(client.base_url, "http://127.0.0.1:8080");
}

#[test]
fn add_memory_remote_sends_the_real_expected_request_body() {
    let client = RemoteClient::new("http://127.0.0.1:8080", None);
    assert_eq!(client.memories_url(), "http://127.0.0.1:8080/memories");
    let body = build_add_request("hello", &alice(), false, &Vec::new());
    assert_eq!(body["content"], "hello");
    assert_eq!(body["user_id"], "alice");
    assert_eq!(body["infer"], false);
}

#[test]
fn search_memories_remote_sends_the_real_expected_request_body_and_parses_a_real_response() {
    let client = RemoteClient::new("http://127.0.0.1:8080", None);
    assert_eq!(client.search_url(), "http://127.0.0.1:8080/search");
    let body = build_search_request("hi", &alice(), 5, serde_json::Value::Null, false, false);
    assert_eq!(body["query"], "hi");
    assert_eq!(body["user_id"], "alice");
    assert_eq!(body["top_k"], 5);
    assert!(body["threshold"].is_null());
    assert!(body["agent_id"].is_null());
    assert_eq!(body["show_expired"], false);
    assert_eq!(body["explain"], false);
}

#[test]
fn get_memory_remote_maps_a_non_2xx_response_to_a_real_specific_error() {
    assert_eq!(classify(500), Reply::Failure);
    let err = error_message("500 Internal Server Error", Some("boom".to_string()), r#"{"error":"boom"}"#);
    assert!(err.contains("500"), "got: {err}");
    assert!(err.contains("boom"), "got: {err}");
}

#[test]
fn delete_memory_remote_reports_a_real_error_instead_of_success_when_the_server_rejects_it() {
    assert_eq!(classify(404), Reply::Missing);
    let err = error_message("404 Not Found", None, "no memory");
    assert_eq!(err, "server returned 404 Not Found: no memory");
}

#[test]
fn every_status_between_two_and_three_hundred_is_a_success() {
    assert_eq!(classify(200), Reply::Success);
    assert_eq!(classify(299), Reply::Success);
    assert_eq!(classify(300), Reply::Failure);
    assert_eq!(classify(199), Reply::Failure);
}

#[test]
fn addresses_lie_under_the_server() {
    let client = RemoteClient::new("http://h//", Some("k".to_string()));
    assert_eq!(client.memory_url("rec-1"), "http://h/memories/rec-1");
    assert_eq!(client.history_url("rec-1", 2, 7), "http://h/memories/rec-1/history?offset=2&limit=7");
    assert_eq!(client.entities_url(), "http://h/entities");
    assert_eq!(client.api_key, Some("k".to_string()));
}

#[test]
fn a_list_is_asked_for_with_what_is_given() {
    let query = build_list_query(&alice(), 0, 50, true);
    let expected = [("offset", "0"), ("limit", "50"), ("user_id", "alice"), ("show_expired", "true")];
    let pairs: Vec<(&str, &str)> = query.iter().map(|(k, v)| (k.as_str(), v.as_str())).collect();
    assert_eq!(pairs, expected);
    assert_eq!(build_list_query(&alice(), 0, 50, false).len(), 3);
}

#[test]
fn the_other_requests_have_their_fields() {
    let all = build_delete_all_request(&alice());
    assert_eq!(all["user_id"], "alice");
    assert!(all["run_id"].is_null());
    let metadata = Payload::from_pairs(vec![("mood".to_string(), "calm".to_string())]);
    let update = build_update_request(&Some("new".to_string()), Some(&metadata));
    assert_eq!(update["content"], "new");
    assert_eq!(update["metadata"]["mood"], "calm");
    let nothing = build_update_request(&None, None);
    assert!(nothing["content"].is_null() && nothing["metadata"].is_null());
    let images = build_add_request("hello", &alice(), true, &vec!["data".to_string()]);
    assert_eq!(images["images"][0], "data");
}

#[test]
fn each_trouble_with_the_server_is_told_apart() {
    assert_eq!(Trouble::Unsent.describe("x"), "request to server failed: x");
    assert_eq!(Trouble::Unread.describe("x"), "failed to read server response: x");
    assert_eq!(Trouble::Malformed.describe("x"), "malformed response from server: x");
}
