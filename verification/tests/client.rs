use twitterapi_cli::api::{
    check_api_response, collect_trends, join_ids, rate_limit_step, request_url, search_params,
    trends_params, tweet_ids_params, user_from_response, user_info_params, user_list_params,
    PageRequest, Pager, RetryAction, RetryState, TrendItem, UserListFetch, UserListKind, MIN_REQUEST_INTERVAL_NANOS,
    PATH_ADVANCED_SEARCH,
};
use twitterapi_cli::error::{
    auth_failure, cache_dir_failure, cache_write_failure, status_failure, user_not_found,
    TwitterApiError,
};
use twitterapi_cli::model::{ApiResponse, Trend, User};

fn pairs(v: &[(&'static str, String)]) -> Vec<(String, String)> {
    v.iter().map(|(k, v)| (k.to_string(), v.clone())).collect()
}

fn p(k: &str, v: &str) -> (String, String) {
    (k.to_string(), v.to_string())
}

fn response<T>(status: &str, msg: Option<&str>, data: Option<T>) -> ApiResponse<T> {
    ApiResponse {
        status: status.to_string(),
        msg: msg.map(|m| m.to_string()),
        data,
        has_next_page: false,
        next_cursor: None,
    }
}

fn user(handle: &str) -> User {
    User {
        id: "1".to_string(),
        user_name: handle.to_string(),
        name: handle.to_string(),
        description: None,
        followers_count: 0,
        following_count: 0,
        tweets_count: 0,
        listed_count: 0,
        created_at: None,
        location: None,
        is_verified: false,
        is_blue_verified: false,
        profile_image_url: None,
        url: None,
    }
}

#[test]
fn url_of_search_endpoint() {
    assert_eq!(request_url(PATH_ADVANCED_SEARCH), "https://api.twitterapi.io/twitter/tweet/advanced_search");
}

#[test]
fn first_request_does_not_wait() {
    assert_eq!(rate_limit_step(None, 5), (5, None));
}

#[test]
fn close_requests_wait_out_the_interval() {
    let t = 1_000_000_000;
    assert_eq!(rate_limit_step(Some(t), t + 50_000_000), (t + MIN_REQUEST_INTERVAL_NANOS, Some(150_000_000)));
    assert_eq!(rate_limit_step(Some(t), t), (t + 200_000_000, Some(200_000_000)));
    // A call made before the recorded time waits until the interval after it.
    assert_eq!(rate_limit_step(Some(t), t - 10), (t + 200_000_000, Some(200_000_010)));
    // Recorded at 200 ms, called at 20 ms: wait until 400 ms.
    assert_eq!(rate_limit_step(Some(200_000_000), 20_000_000), (400_000_000, Some(380_000_000)));
}

#[test]
fn distant_requests_go_at_once() {
    let t = 1_000_000_000;
    assert_eq!(rate_limit_step(Some(t), t + 200_000_000), (t + 200_000_000, None));
    assert_eq!(rate_limit_step(Some(t), t + 900_000_000), (t + 900_000_000, None));
}

#[test]
fn spaced_requests_scenario() {
    let mut last = None;
    let mut now = 0u64;
    let mut sent = Vec::new();
    for _ in 0..4 {
        let (record, wait) = rate_limit_step(last, now);
        let at = now + wait.unwrap_or(0);
        assert_eq!(at, record);
        sent.push(at);
        last = Some(record);
        now = at + 10;
    }
    for w in sent.windows(2) {
        assert!(w[1] - w[0] >= MIN_REQUEST_INTERVAL_NANOS);
    }
}

#[test]
fn overlapping_calls_are_spaced() {
    // The second call takes the lock before the first has sent.
    let (r1, w1) = rate_limit_step(Some(0), 20);
    let sent1 = 20 + w1.unwrap_or(0);
    assert_eq!(sent1, r1);
    let (r2, w2) = rate_limit_step(Some(r1), 30);
    let sent2 = 30 + w2.unwrap_or(0);
    assert_eq!(sent2, r2);
    assert!(sent2 - sent1 >= MIN_REQUEST_INTERVAL_NANOS);
}

#[test]
fn retry_on_rate_limit_three_times() {
    let mut s = RetryState::new();
    assert_eq!(s.on_status(429), RetryAction::RetryAfter { secs: 1 });
    assert_eq!(s.on_status(429), RetryAction::RetryAfter { secs: 1 });
    assert_eq!(s.on_status(429), RetryAction::RetryAfter { secs: 1 });
    assert_eq!(s.on_status(429), RetryAction::RateLimited);
    assert_eq!(s.rate_limit_retries, 3);
}

#[test]
fn retry_on_server_error_once() {
    let mut s = RetryState::new();
    assert_eq!(s.on_status(503), RetryAction::RetryAfter { secs: 2 });
    assert_eq!(s.on_status(500), RetryAction::ApiFailure);
    assert_eq!(s.server_error_retries, 1);
}

#[test]
fn all_server_errors_send_twice() {
    let mut s = RetryState::new();
    let mut attempts = 1;
    loop {
        match s.on_status(502) {
            RetryAction::RetryAfter { .. } => attempts += 1,
            action => {
                assert_eq!(action, RetryAction::ApiFailure);
                break;
            }
        }
    }
    assert_eq!(attempts, 2);
}

#[test]
fn retry_success_auth_and_other() {
    let mut s = RetryState::new();
    assert_eq!(s.on_status(200), RetryAction::ReadBody);
    assert_eq!(s.on_status(204), RetryAction::ReadBody);
    assert_eq!(s.on_status(401), RetryAction::AuthFailure);
    assert_eq!(s.on_status(403), RetryAction::AuthFailure);
    assert_eq!(s.on_status(404), RetryAction::ApiFailure);
    assert_eq!(s, RetryState::new());
}

#[test]
fn at_most_five_attempts() {
    let mut s = RetryState::new();
    let mut attempts = 1;
    let statuses = [429, 500, 429, 429, 429, 503];
    for st in statuses {
        match s.on_status(st) {
            RetryAction::RetryAfter { .. } => attempts += 1,
            _ => break,
        }
    }
    assert!(attempts <= 5);
    assert_eq!(attempts, 5);
}

#[test]
fn error_messages() {
    assert_eq!(TwitterApiError::Network("timeout".to_string()).message(), "Network error: timeout");
    assert_eq!(TwitterApiError::Api("bad".to_string()).message(), "API error: bad");
    assert_eq!(TwitterApiError::RateLimited.message(), "Rate limited (429). Retries exhausted.");
    assert_eq!(TwitterApiError::AuthError("no".to_string()).message(), "Authentication error: no");
    assert_eq!(TwitterApiError::Cache("full".to_string()).message(), "Cache error: full");
    assert_eq!(TwitterApiError::Io("eof".to_string()).message(), "IO error: eof");
    assert_eq!(TwitterApiError::Json("syntax".to_string()).message(), "JSON error: syntax");
}

#[test]
fn failure_builders() {
    assert_eq!(
        auth_failure("401 Unauthorized", "bad key").message(),
        "Authentication error: Authentication failed (401 Unauthorized): bad key"
    );
    assert_eq!(
        status_failure("404 Not Found", "{}").message(),
        "API error: API returned status 404 Not Found: {}"
    );
    assert_eq!(user_not_found("ghost").message(), "API error: User 'ghost' not found");
    assert_eq!(cache_dir_failure("denied").message(), "Cache error: Failed to create cache dir: denied");
    assert_eq!(cache_write_failure("full").message(), "Cache error: Failed to write cache: full");
}

#[test]
fn envelope_success_passes() {
    let r = check_api_response(response("success", None, Some(5u32))).unwrap();
    assert_eq!(r.data, Some(5));
}

#[test]
fn envelope_failure_uses_message() {
    match check_api_response(response::<u32>("error", Some("quota"), None)) {
        Err(TwitterApiError::Api(m)) => assert_eq!(m, "quota"),
        _ => panic!("expected an API error"),
    }
    match check_api_response(response::<u32>("", None, None)) {
        Err(TwitterApiError::Api(m)) => assert_eq!(m, "Unknown error"),
        _ => panic!("expected an API error"),
    }
}

#[test]
fn user_info_data_or_not_found() {
    let ok = user_from_response(response("success", None, Some(user("bob"))), "bob").unwrap();
    assert_eq!(ok.user_name, "bob");
    match user_from_response(response::<User>("success", None, None), "bob") {
        Err(TwitterApiError::Api(m)) => assert_eq!(m, "User 'bob' not found"),
        _ => panic!("expected an API error"),
    }
}

#[test]
fn request_parameters() {
    assert_eq!(
        pairs(&search_params("AI agents", "Top", 20, None)),
        vec![p("query", "AI agents"), p("queryType", "Top"), p("count", "20")]
    );
    assert_eq!(
        pairs(&search_params("q", "Latest", 5, Some("abc".to_string()))),
        vec![p("query", "q"), p("queryType", "Latest"), p("count", "5"), p("cursor", "abc")]
    );
    assert_eq!(pairs(&user_list_params("bob", None)), vec![p("userName", "bob")]);
    assert_eq!(
        pairs(&user_list_params("bob", Some("c2".to_string()))),
        vec![p("userName", "bob"), p("cursor", "c2")]
    );
    assert_eq!(pairs(&user_info_params("alice")), vec![p("userName", "alice")]);
    assert_eq!(pairs(&trends_params(23424977, 5)), vec![p("woeid", "23424977"), p("count", "5")]);
    let ids = vec!["1".to_string(), "22".to_string(), "333".to_string()];
    assert_eq!(pairs(&tweet_ids_params(&ids)), vec![p("tweet_ids", "1,22,333")]);
}

#[test]
fn join_ids_edge_cases() {
    assert_eq!(join_ids(&[]), "");
    assert_eq!(join_ids(&["9".to_string()]), "9");
}

#[test]
fn pager_stops_at_limit_and_truncates() {
    let mut pager: Pager<u32> = Pager::new(5);
    match pager.next_request() {
        PageRequest::Fetch { cursor } => assert_eq!(cursor, None),
        PageRequest::Stop => panic!("expected a fetch"),
    }
    pager.accept_page(vec![1, 2, 3], true, Some("c1".to_string()));
    match pager.next_request() {
        PageRequest::Fetch { cursor } => assert_eq!(cursor, Some("c1".to_string())),
        PageRequest::Stop => panic!("expected a fetch"),
    }
    pager.accept_page(vec![4, 5, 6, 7], true, Some("c2".to_string()));
    assert!(matches!(pager.next_request(), PageRequest::Stop));
    assert_eq!(pager.finish(), vec![1, 2, 3, 4, 5]);
}

#[test]
fn pager_stops_on_empty_page_or_last_page() {
    let mut pager: Pager<u32> = Pager::new(10);
    pager.accept_page(vec![1], true, Some("c".to_string()));
    pager.accept_page(vec![], true, Some("d".to_string()));
    assert!(matches!(pager.next_request(), PageRequest::Stop));
    assert_eq!(pager.finish(), vec![1]);

    let mut last: Pager<u32> = Pager::new(10);
    last.accept_page(vec![1, 2], false, Some("c".to_string()));
    assert!(matches!(last.next_request(), PageRequest::Stop));
    let mut no_cursor: Pager<u32> = Pager::new(10);
    no_cursor.accept_page(vec![1, 2], true, None);
    assert!(matches!(no_cursor.next_request(), PageRequest::Stop));
    assert_eq!(no_cursor.finish(), vec![1, 2]);
}

#[test]
fn pager_with_empty_next_cursor_fetches_without_cursor() {
    let mut pager: Pager<u32> = Pager::new(10);
    pager.accept_page(vec![1], true, Some(String::new()));
    match pager.next_request() {
        PageRequest::Fetch { cursor } => assert_eq!(cursor, None),
        PageRequest::Stop => panic!("expected a fetch"),
    }
}

#[test]
fn pager_fetches_at_most_limit_pages() {
    let limit = 4;
    let mut pager: Pager<u32> = Pager::new(limit);
    let mut fetches = 0;
    while let PageRequest::Fetch { .. } = pager.next_request() {
        fetches += 1;
        pager.accept_page(vec![fetches], true, Some(format!("c{}", fetches)));
    }
    assert!(fetches as usize <= limit);
    assert_eq!(pager.finish(), vec![1, 2, 3, 4]);
}

#[test]
fn pager_with_zero_limit_never_fetches() {
    let pager: Pager<u32> = Pager::new(0);
    assert!(matches!(pager.next_request(), PageRequest::Stop));
    assert_eq!(pager.finish(), Vec::<u32>::new());
}

#[test]
fn trends_from_both_forms() {
    let items = vec![
        TrendItem::Nested { name: "#Bitcoin".to_string(), target: Some(Some("%23Bitcoin".to_string())), tweet_count: Some(125000) },
        TrendItem::Unrecognized,
        TrendItem::Flat(Trend { name: "AI".to_string(), tweet_count: 7, query: None, url: Some("u".to_string()) }),
        TrendItem::Nested { name: "Quiet".to_string(), target: Some(None), tweet_count: None },
        TrendItem::Nested { name: "Bare".to_string(), target: None, tweet_count: None },
    ];
    let trends = collect_trends(items);
    assert_eq!(trends.len(), 4);
    assert_eq!(trends[0].name, "#Bitcoin");
    assert_eq!(trends[0].tweet_count, 125000);
    assert_eq!(trends[0].query, Some("%23Bitcoin".to_string()));
    assert_eq!(trends[0].url, None);
    assert_eq!(trends[1].name, "AI");
    assert_eq!(trends[1].url, Some("u".to_string()));
    assert_eq!(trends[2].name, "Quiet");
    assert_eq!(trends[2].tweet_count, 0);
    assert_eq!(trends[2].query, None);
    assert_eq!(trends[3].name, "Bare");
    assert!(collect_trends(vec![]).is_empty());
}

#[test]
fn user_list_kinds_differ_in_path_and_key() {
    assert_eq!(UserListKind::Followers.path(), "/twitter/user/followers");
    assert_eq!(UserListKind::Followings.path(), "/twitter/user/followings");
    assert_eq!(UserListKind::Followers.page_key(), "followers");
    assert_eq!(UserListKind::Followings.page_key(), "followings");
}

/// Drives a user-list fetch over the given pages, recording each request.
fn run_list_fetch(
    kind: UserListKind,
    limit: usize,
    pages: Vec<(Vec<User>, bool, Option<String>)>,
) -> (Vec<(String, Vec<(String, String)>)>, Vec<String>) {
    let mut fetch = UserListFetch::new(kind, "alice", limit);
    let mut requests = Vec::new();
    let mut pages = pages.into_iter();
    while let Some((path, params)) = fetch.next_request() {
        requests.push((path.to_string(), pairs(&params)));
        match pages.next() {
            Some((page, has_next, cursor)) => fetch.accept_page(page, has_next, cursor),
            None => fetch.accept_page(Vec::new(), false, None),
        }
    }
    let names = fetch.finish().users.into_iter().map(|u| u.user_name).collect();
    (requests, names)
}

fn list_pages() -> Vec<(Vec<User>, bool, Option<String>)> {
    vec![
        (vec![user("u1"), user("u2")], true, Some("next1".to_string())),
        (vec![user("u3"), user("u4")], true, Some("next2".to_string())),
        (vec![user("u5")], false, None),
    ]
}

#[test]
fn user_list_fetch_pages_with_cursor_and_truncates() {
    let (requests, names) = run_list_fetch(UserListKind::Followers, 3, list_pages());
    assert_eq!(
        requests,
        vec![
            ("/twitter/user/followers".to_string(), vec![p("userName", "alice")]),
            ("/twitter/user/followers".to_string(), vec![p("userName", "alice"), p("cursor", "next1")]),
        ]
    );
    assert_eq!(names, vec!["u1", "u2", "u3"]);
}

#[test]
fn followers_and_followings_fetch_alike() {
    let (followers, f_names) = run_list_fetch(UserListKind::Followers, 10, list_pages());
    let (followings, g_names) = run_list_fetch(UserListKind::Followings, 10, list_pages());
    assert_eq!(followers.len(), 3);
    assert_eq!(followers.len(), followings.len());
    for (f, g) in followers.iter().zip(followings.iter()) {
        assert_eq!(f.0, "/twitter/user/followers");
        assert_eq!(g.0, "/twitter/user/followings");
        assert_eq!(f.1, g.1);
    }
    assert_eq!(followers[2].1, vec![p("userName", "alice"), p("cursor", "next2")]);
    assert_eq!(f_names, g_names);
    assert_eq!(f_names, vec!["u1", "u2", "u3", "u4", "u5"]);
}

#[test]
fn user_list_fetch_with_zero_limit_sends_nothing() {
    let (requests, names) = run_list_fetch(UserListKind::Followings, 0, list_pages());
    assert!(requests.is_empty());
    assert!(names.is_empty());
}

#[test]
fn user_list_fetch_stops_on_empty_page() {
    let pages = vec![(vec![user("u1")], true, Some("c".to_string())), (Vec::new(), true, Some("d".to_string()))];
    let (requests, names) = run_list_fetch(UserListKind::Followers, 10, pages);
    assert_eq!(requests.len(), 2);
    assert_eq!(names, vec!["u1"]);
}
