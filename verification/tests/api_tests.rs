use std::collections::hash_map::DefaultHasher;
use std::hash::{Hash, Hasher};

use semgrep::api::{
    build_filter, get_state_file_path, resolve_base_url, resolve_index_name,
    resolve_root_and_path_filter, sanitize_index_part, state_file_path_in, state_path, states_dir_from,
    PathFilter,
    PathStatus,
};
use semgrep::client::{
    api_error, check_update_batch, indices_to_clear, response_outcome, search_hit_count, sync_step,
    ApiCall,
    ApiClient, ApiErrorBody, Endpoint, Outcome, SyncAction, SyncEvent, SYNC_POLLS,
};
use semgrep::errors::SemgrepError;

fn text_hash(s: &str) -> u64 {
    let mut h = DefaultHasher::new();
    s.hash(&mut h);
    h.finish()
}

fn path_hash(p: &str) -> u64 {
    let mut h = DefaultHasher::new();
    std::path::Path::new(p).hash(&mut h);
    h.finish()
}

#[test]
fn filter_combines_clauses_in_order() {
    let pf = PathFilter::Exact("src/a.rs".to_string());
    let (cond, params) = build_filter(Some(&pf), Some("rust"), Some("rs")).unwrap();
    assert_eq!(cond, "file_path = ? AND language = ? AND file_path LIKE ?");
    assert_eq!(params, vec!["src/a.rs".to_string(), "rust".to_string(), "%.rs".to_string()]);
    assert_eq!(cond.matches('?').count(), params.len());
    let (cond, params) = build_filter(None, None, Some(".py")).unwrap();
    assert_eq!(cond, "file_path LIKE ?");
    assert_eq!(params, vec!["%.py".to_string()]);
    let (cond, params) = build_filter(None, Some("go"), None).unwrap();
    assert_eq!((cond.as_str(), params.len()), ("language = ?", 1));
    assert_eq!(build_filter(None, None, None), None);
}

#[test]
fn index_part_is_sanitized() {
    assert_eq!(sanitize_index_part("My Project!"), "my-project");
    assert_eq!(sanitize_index_part("--a.b--"), "a-b");
    assert_eq!(sanitize_index_part("---"), "project");
    assert_eq!(sanitize_index_part(""), "project");
    assert_eq!(sanitize_index_part("Ab_c-D"), "ab_c-d");
    assert_eq!(sanitize_index_part("été"), "t");
    for name in ["x y", "ÄÖÜ", "--", "a__b", "Z-"] {
        let p = sanitize_index_part(name);
        assert!(!p.is_empty() && !p.starts_with('-') && !p.ends_with('-'));
        assert!(p.chars().all(|c| c.is_ascii_lowercase() || c.is_ascii_digit() || c == '-' || c == '_'));
        assert_eq!(sanitize_index_part(&p), p);
    }
}

#[test]
fn base_url_precedence() {
    assert_eq!(resolve_base_url(None, None), "http://127.0.0.1:8080");
    assert_eq!(resolve_base_url(Some("http://a".into()), Some("http://b".into())), "http://a");
    assert_eq!(resolve_base_url(None, Some("http://b".into())), "http://b");
}

#[test]
fn index_name_precedence_and_generation() {
    let root = "/home/u/My Repo";
    let generated = resolve_index_name(root, None, None);
    assert_eq!(generated, format!("semgrep-my-repo-{:x}", text_hash(root)));
    assert_eq!(resolve_index_name(root, None, Some("  ".into())), generated);
    assert_eq!(resolve_index_name(root, None, Some("custom".into())), "custom");
    assert_eq!(resolve_index_name(root, Some("cli".into()), Some("custom".into())), "cli");
    assert_eq!(resolve_index_name("/", None, None), format!("semgrep-project-{:x}", text_hash("/")));
    // What the tool names, clearing all removes.
    let all = vec![generated.clone(), "other".to_string(), "semgrep".to_string()];
    assert_eq!(indices_to_clear(&all), vec![generated]);
}

#[test]
fn root_and_filter_from_path_status() {
    let e = resolve_root_and_path_filter("nope", PathStatus::Missing).unwrap_err();
    assert_eq!(e, SemgrepError::PathNotFound("nope".into()));
    assert_eq!(e.message(), "path does not exist: nope");
    let e = resolve_root_and_path_filter("x", PathStatus::Unresolvable).unwrap_err();
    assert_eq!(e.message(), "failed to canonicalize x");
    let (root, filter) = resolve_root_and_path_filter(
        "c.rs",
        PathStatus::Resolved { canonical: "/a/b/c.rs".into(), is_file: true },
    )
    .unwrap();
    assert_eq!(root, "/a/b");
    assert_eq!(filter, Some(PathFilter::Exact("c.rs".into())));
    let (root, filter) = resolve_root_and_path_filter(
        "a",
        PathStatus::Resolved { canonical: "/a".into(), is_file: true },
    )
    .unwrap();
    assert_eq!((root.as_str(), filter), ("/", Some(PathFilter::Exact("a".into()))));
    let (root, filter) = resolve_root_and_path_filter(
        ".",
        PathStatus::Resolved { canonical: "/a/b".into(), is_file: false },
    )
    .unwrap();
    assert_eq!((root.as_str(), filter), ("/a/b", None));
}

#[test]
fn states_directory() {
    assert_eq!(states_dir_from(Some("/d".into()), Some("/h".into())).unwrap(), "/d/semgrep/states");
    assert_eq!(states_dir_from(Some("/d/".into()), None).unwrap(), "/d/semgrep/states");
    assert_eq!(states_dir_from(None, Some("/h".into())).unwrap(), "/h/.local/share/semgrep/states");
    let e = states_dir_from(None, None).unwrap_err();
    assert_eq!(e, SemgrepError::NoHomeDir);
    assert_eq!(e.message(), "unable to determine home dir");
}

#[test]
fn state_file_named_by_root_hash() {
    let name = format!("{:x}.json", path_hash("/some/root"));
    if let Ok(p) = get_state_file_path("/some/root") {
        assert!(p.ends_with(&format!("/{}", name)));
        assert!(p.contains("semgrep/states"));
        assert_eq!(state_path("/some/root").unwrap(), p);
    }
}

#[test]
fn client_keeps_base_url_without_trailing_slash() {
    let c = ApiClient::new("http://h:8080//".to_string());
    assert_eq!(c.base_url(), "http://h:8080");
    let again = ApiClient::new(c.base_url().to_string());
    assert_eq!(again.base_url(), c.base_url());
    assert_eq!(c.endpoint_url(&Endpoint::Indices), "http://h:8080/indices");
    assert_eq!(c.endpoint_url(&Endpoint::Index("i".into())), "http://h:8080/indices/i");
    assert_eq!(c.endpoint_url(&Endpoint::Documents("i".into())), "http://h:8080/indices/i/documents");
    assert_eq!(
        c.endpoint_url(&Endpoint::UpdateWithEncoding("i".into())),
        "http://h:8080/indices/i/update_with_encoding"
    );
    assert_eq!(
        c.endpoint_url(&Endpoint::SearchWithEncoding("i".into())),
        "http://h:8080/indices/i/search_with_encoding"
    );
    assert_eq!(
        c.endpoint_url(&Endpoint::FilteredSearchWithEncoding("i".into())),
        "http://h:8080/indices/i/search/filtered_with_encoding"
    );
    assert_eq!(ApiClient::new("/".to_string()).base_url(), "");
}

#[test]
fn response_outcomes() {
    assert_eq!(response_outcome(ApiCall::DeleteIndex, 404), Outcome::Success);
    assert_eq!(response_outcome(ApiCall::DeleteIndex, 204), Outcome::Success);
    assert_eq!(response_outcome(ApiCall::DeleteIndex, 500), Outcome::Failure);
    assert_eq!(response_outcome(ApiCall::CreateIndex, 409), Outcome::Success);
    assert_eq!(response_outcome(ApiCall::CreateIndex, 404), Outcome::Failure);
    assert_eq!(response_outcome(ApiCall::GetIndexInfo, 404), Outcome::Absent);
    assert_eq!(response_outcome(ApiCall::GetIndexInfo, 200), Outcome::Success);
    assert_eq!(response_outcome(ApiCall::GetIndexInfo, 409), Outcome::Failure);
    assert_eq!(response_outcome(ApiCall::Search, 299), Outcome::Success);
    assert_eq!(response_outcome(ApiCall::Search, 300), Outcome::Failure);
    assert_eq!(response_outcome(ApiCall::ListIndices, 199), Outcome::Failure);
    assert_eq!(response_outcome(ApiCall::UpdateWithEncoding, 404), Outcome::Failure);
}

#[test]
fn api_error_messages() {
    let body = |code: Option<&str>, message: Option<&str>| ApiErrorBody {
        code: code.map(String::from),
        message: message.map(String::from),
    };
    let m = |e: SemgrepError| e.message();
    assert_eq!(m(api_error("400 Bad Request", "{..}", Some(body(Some("E1"), Some("bad"))))), "API error 400 Bad Request (E1): bad");
    assert_eq!(m(api_error("400 Bad Request", "{..}", Some(body(None, Some("bad"))))), "API error 400 Bad Request: bad");
    assert_eq!(m(api_error("500 Internal Server Error", "{}", Some(body(Some("x"), None)))), "API request failed with status 500 Internal Server Error: {}");
    assert_eq!(m(api_error("502 Bad Gateway", "", None)), "API request failed with status 502 Bad Gateway");
    assert_eq!(m(api_error("502 Bad Gateway", "oops", None)), "API request failed with status 502 Bad Gateway: oops");
}

#[test]
fn update_batch_lengths() {
    assert_eq!(check_update_batch(2, 2), Ok(()));
    let e = check_update_batch(3, 2).unwrap_err();
    assert_eq!(e, SemgrepError::LengthMismatch { documents: 3, metadata: 2 });
    assert_eq!(e.message(), "documents length (3) does not match metadata length (2)");
}

#[test]
fn sync_wait_steps() {
    assert_eq!(sync_step(0, 0, SyncEvent::Start), SyncAction::Stop);
    assert_eq!(sync_step(5, 0, SyncEvent::Start), SyncAction::Poll);
    assert_eq!(sync_step(5, 1, SyncEvent::Polled(Some(5))), SyncAction::Stop);
    assert_eq!(sync_step(5, 1, SyncEvent::Polled(Some(4))), SyncAction::Pause);
    assert_eq!(sync_step(5, 1, SyncEvent::Polled(None)), SyncAction::Pause);
    assert_eq!(sync_step(5, 1, SyncEvent::Paused), SyncAction::Poll);
    assert_eq!(sync_step(5, SYNC_POLLS, SyncEvent::Paused), SyncAction::Stop);
    // The wait polls at most SYNC_POLLS times.
    let mut polls = 0;
    let mut event = SyncEvent::Start;
    loop {
        match sync_step(5, polls, event) {
            SyncAction::Stop => break,
            SyncAction::Poll => {
                polls += 1;
                event = SyncEvent::Polled(Some(1));
            }
            SyncAction::Pause => event = SyncEvent::Paused,
        }
    }
    assert_eq!(polls, 40);
}

#[test]
fn search_hits_read_as_far_as_the_shortest_list() {
    assert_eq!(search_hit_count(3, 3, 3), 3);
    assert_eq!(search_hit_count(5, 2, 4), 2);
    assert_eq!(search_hit_count(5, 4, 1), 1);
    assert_eq!(search_hit_count(0, 4, 4), 0);
}

#[test]
fn state_file_in_a_directory() {
    let name = format!("{:x}.json", path_hash("/some/root"));
    assert_eq!(state_file_path_in("/d/states", "/some/root"), format!("/d/states/{}", name));
    assert_eq!(state_file_path_in("/d/states/", "/some/root"), format!("/d/states/{}", name));
    assert_eq!(state_file_path_in("/d", "/some/root"), state_file_path_in("/d", "/some/root"));
    let hex = name.trim_end_matches(".json");
    assert!(!hex.is_empty() && hex.len() <= 16);
}

#[test]
fn generated_index_name_form() {
    let name = resolve_index_name("/home/u/My App", None, None);
    let hx = format!("{:x}", text_hash("/home/u/My App"));
    assert_eq!(name, format!("semgrep-my-app-{}", hx));
    assert!(!hx.is_empty() && hx.len() <= 16);
    assert!(hx.chars().all(|c| c.is_ascii_digit() || ('a'..='f').contains(&c)));
}
