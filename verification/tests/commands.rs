use std::path::PathBuf;
use twitterapi_cli::cli::{QueryType, UserSection};
use twitterapi_cli::commands::{
    cached_user_tweets_header, next_action, split_cache_lookups, CommandAction, CommandEvent, followers_label, following_label, is_blank,
    limit_trends, list_section, no_results_message, no_user_tweets_message, order_by_ids, profile_markdown,
    search_header, search_markdown, trends_markdown, tweets_by_id_markdown, user_list_markdown,
    user_tweets_header, user_tweets_markdown, user_tweets_query,
};
use twitterapi_cli::config::{resolve_api_key, AppConfig};
use twitterapi_cli::model::{Trend, Tweet, TweetAuthor, User};

fn tweet(id: &str, text: &str) -> Tweet {
    Tweet {
        id: id.to_string(),
        text: text.to_string(),
        created_at: None,
        author: Some(TweetAuthor {
            user_name: "a".to_string(),
            name: "A".to_string(),
            profile_image_url: None,
            is_verified: false,
            is_blue_verified: false,
        }),
        retweet_count: 0,
        like_count: 0,
        reply_count: 0,
        quote_count: 0,
        view_count: 0,
        bookmark_count: 0,
        conversation_id: None,
        entities: None,
        url: None,
        is_retweet: false,
        is_reply: false,
        is_quote: false,
    }
}

fn user(handle: &str) -> User {
    User {
        id: String::new(),
        user_name: handle.to_string(),
        name: handle.to_uppercase(),
        description: None,
        followers_count: 1500,
        following_count: 2,
        tweets_count: 3,
        listed_count: 0,
        created_at: None,
        location: None,
        is_verified: false,
        is_blue_verified: false,
        profile_image_url: None,
        url: None,
    }
}

fn s(v: &[&str]) -> Vec<String> {
    v.iter().map(|x| x.to_string()).collect()
}

#[test]
fn query_type_names() {
    assert_eq!(QueryType::Latest.as_api_param(), "Latest");
    assert_eq!(QueryType::Top.as_api_param(), "Top");
    assert_ne!(UserSection::Overview, UserSection::Tweets);
}

#[test]
fn blank_inputs() {
    assert!(is_blank(""));
    assert!(is_blank("   "));
    assert!(is_blank(" \t\n\r\u{a0}\u{3000}\u{2009}"));
    assert!(!is_blank(" a "));
    assert!(!is_blank("\u{200b}"));
    for text in ["", " x", "\u{85}", "\u{1680}y", "\u{202f}"] {
        assert_eq!(is_blank(text), text.trim().is_empty());
    }
}

#[test]
fn headings_and_messages() {
    assert_eq!(search_header("AI agents", 20), "Twitter Search: \"AI agents\" (20 results)");
    assert_eq!(no_results_message("zzz"), "No results found for: zzz");
    assert_eq!(user_tweets_query("elonmusk"), "from:elonmusk");
    assert_eq!(cached_user_tweets_header("elonmusk"), "Tweets by @elonmusk");
    assert_eq!(user_tweets_header("elonmusk", 10), "Tweets by @elonmusk (10 shown)");
    assert_eq!(no_user_tweets_message("x"), "No tweets found for @x");
    assert_eq!(followers_label("github"), "Followers of @github");
    assert_eq!(following_label("github"), "@github is following");
}

#[test]
fn list_sections() {
    let (kind, label) = list_section(UserSection::Followers, "github").unwrap();
    assert_eq!(kind, "followers");
    assert_eq!(label, "Followers of @github");
    let (kind, label) = list_section(UserSection::Following, "github").unwrap();
    assert_eq!(kind, "following");
    assert_eq!(label, "@github is following");
    assert!(list_section(UserSection::Overview, "github").is_none());
    assert!(list_section(UserSection::Tweets, "github").is_none());
}

#[test]
fn order_follows_requested_ids() {
    let ts = vec![tweet("b", "B"), tweet("a", "A"), tweet("c", "C"), tweet("a", "A2")];
    assert_eq!(order_by_ids(&s(&["a", "b", "c"]), &ts), vec![1, 0, 2]);
    assert_eq!(order_by_ids(&s(&["z", "c"]), &ts), vec![2]);
    assert_eq!(order_by_ids(&s(&["a", "a"]), &ts), vec![1, 1]);
    assert_eq!(order_by_ids(&s(&[]), &ts), Vec::<usize>::new());
    assert_eq!(order_by_ids(&s(&["a"]), &[]), Vec::<usize>::new());
}

#[test]
fn trends_limited_to_count() {
    let ts: Vec<Trend> = (0..5).map(|i| Trend { name: i.to_string(), tweet_count: i, query: None, url: None }).collect();
    assert_eq!(limit_trends(ts.clone(), 3).len(), 3);
    assert_eq!(limit_trends(ts.clone(), 3)[2].name, "2");
    assert_eq!(limit_trends(ts.clone(), 30).len(), 5);
    assert_eq!(limit_trends(ts, 0).len(), 0);
}

#[test]
fn markdown_results_end_with_data_line() {
    let ts = vec![tweet("1", "one")];
    assert_eq!(
        search_markdown("q", &ts, "T"),
        "## Twitter Search: \"q\" (1 results)\n\n1. **A** (@a)\n   one\n   https://x.com/a/status/1\n\n*Data from: T*\n"
    );
    assert_eq!(
        user_tweets_markdown("a", &ts, true, "T"),
        "## Tweets by @a\n\n1. **A** (@a)\n   one\n   https://x.com/a/status/1\n\n*Data from: T*\n"
    );
    assert_eq!(
        user_tweets_markdown("a", &ts, false, "T"),
        "## Tweets by @a (1 shown)\n\n1. **A** (@a)\n   one\n   https://x.com/a/status/1\n\n*Data from: T*\n"
    );
    assert_eq!(
        user_list_markdown(&[user("bo")], "Followers of @x", "T"),
        "## Followers of @x (1 shown)\n\n1. **BO** (@bo) \u{2014} 1,500 followers\n\n*Data from: T*\n"
    );
    assert_eq!(
        trends_markdown(&[], "T"),
        "## Trending Topics\n\n\n*Data from: T*\n"
    );
    assert!(profile_markdown(&user("bo"), "T").ends_with("| 1,500 | 2 | 3 |\n\n*Data from: T*\n"));
}

#[test]
fn tweets_by_id_in_requested_order() {
    let ts = vec![tweet("2", "two"), tweet("1", "one")];
    assert_eq!(
        tweets_by_id_markdown(&s(&["1", "3", "2"]), &ts, "T"),
        "## Tweet Details (2 tweets)\n\n**A** (@a)\none\nhttps://x.com/a/status/1\n\n**A** (@a)\ntwo\nhttps://x.com/a/status/2\n\n*Data from: T*\n"
    );
    assert_eq!(
        tweets_by_id_markdown(&s(&["1"]), &ts, "T"),
        "## Tweet Details (1 tweet)\n\n**A** (@a)\none\nhttps://x.com/a/status/1\n\n*Data from: T*\n"
    );
}

#[test]
fn api_key_priority() {
    let k = |v: &str| Some(v.to_string());
    assert_eq!(resolve_api_key(k("flag"), k("env"), k("file")), k("flag"));
    assert_eq!(resolve_api_key(None, k("env"), k("file")), k("env"));
    assert_eq!(resolve_api_key(None, None, k("file")), k("file"));
    assert_eq!(resolve_api_key(None, None, None), None);
}

#[test]
fn config_from_sources() {
    let c = AppConfig::from_sources(None, true, false, Some("e".to_string()), None, PathBuf::from("/c"));
    assert_eq!(c.api_key, Some("e".to_string()));
    assert!(c.no_cache);
    assert!(!c.json_output);
    assert_eq!(c.cache_dir, PathBuf::from("/c"));
}

#[test]
fn cache_lookups_split_into_hits_and_missing_ids() {
    let lookups = vec![
        ("1".to_string(), Some(tweet("1", "one"))),
        ("2".to_string(), None),
        ("3".to_string(), Some(tweet("3", "three"))),
        ("4".to_string(), None),
    ];
    let (hits, missing) = split_cache_lookups(lookups);
    let hit_ids: Vec<String> = hits.iter().map(|t| t.id.clone()).collect();
    assert_eq!(hit_ids, vec!["1", "3"]);
    assert_eq!(missing, vec!["2", "4"]);
    let (none, all) = split_cache_lookups(vec![("9".to_string(), None)]);
    assert!(none.is_empty());
    assert_eq!(all, vec!["9"]);
}

fn flow(reports_empty: bool, hit: bool, empty: bool, stored: bool) -> Vec<&'static str> {
    let mut event = CommandEvent::Started;
    let mut actions = Vec::new();
    loop {
        let action = next_action(event, reports_empty);
        event = match action {
            CommandAction::ReadCache => {
                actions.push("read");
                if hit { CommandEvent::CacheHit } else { CommandEvent::CacheMiss }
            }
            CommandAction::ShowCached => {
                actions.push("show cached");
                CommandEvent::Shown
            }
            CommandAction::Fetch => {
                actions.push("fetch");
                CommandEvent::Fetched { empty }
            }
            CommandAction::ShowEmpty => {
                actions.push("show empty");
                CommandEvent::Shown
            }
            CommandAction::Store => {
                actions.push("store");
                CommandEvent::Stored { ok: stored }
            }
            CommandAction::ShowFetched => {
                actions.push("show fetched");
                CommandEvent::Shown
            }
            CommandAction::Finish => return actions,
        };
    }
}

#[test]
fn cache_hit_is_shown_without_a_request() {
    assert_eq!(flow(true, true, false, true), vec!["read", "show cached"]);
    assert_eq!(flow(false, true, true, false), vec!["read", "show cached"]);
}

#[test]
fn empty_answer_gets_its_message_and_is_not_cached() {
    assert_eq!(flow(true, false, true, true), vec!["read", "fetch", "show empty"]);
    assert_eq!(flow(false, false, true, true), vec!["read", "fetch", "store", "show fetched"]);
}

#[test]
fn failed_cache_write_still_shows_the_answer() {
    assert_eq!(flow(true, false, false, false), vec!["read", "fetch", "store", "show fetched"]);
    assert_eq!(flow(true, false, false, true), flow(true, false, false, false));
}
