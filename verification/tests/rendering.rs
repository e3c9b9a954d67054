use twitterapi_cli::model::{Trend, Tweet, TweetAuthor, User};
use twitterapi_cli::output::{
    format_number, format_trends, format_tweet, format_tweet_list, format_user_list,
    format_user_profile,
};

fn user(name: &str, handle: &str, followers: u64) -> User {
    User {
        id: String::new(),
        user_name: handle.to_string(),
        name: name.to_string(),
        description: None,
        followers_count: followers,
        following_count: 0,
        tweets_count: 0,
        listed_count: 0,
        created_at: None,
        location: None,
        is_verified: false,
        is_blue_verified: false,
        profile_image_url: None,
        url: None,
    }
}

fn tweet(id: &str, text: &str, author: Option<(&str, &str)>) -> Tweet {
    Tweet {
        id: id.to_string(),
        text: text.to_string(),
        created_at: None,
        author: author.map(|(name, handle)| TweetAuthor {
            user_name: handle.to_string(),
            name: name.to_string(),
            profile_image_url: None,
            is_verified: false,
            is_blue_verified: false,
        }),
        retweet_count: 0,
        like_count: 0,
        reply_count: 0,
        quote_count: 0,
        view_count: 0,
        bookmark_count: 0,
        conversation_id: None,
        entities: None,
        url: None,
        is_retweet: false,
        is_reply: false,
        is_quote: false,
    }
}

fn trend(name: &str, count: u64) -> Trend {
    Trend { name: name.to_string(), tweet_count: count, query: None, url: None }
}

#[test]
fn profile_full_example() {
    let mut u = user("Elon Musk", "elonmusk", 215432100);
    u.following_count = 1234;
    u.tweets_count = 52345;
    u.is_blue_verified = true;
    u.description = Some("Technoking of Tesla, owner of X, founder of SpaceX & xAI".to_string());
    u.location = Some("Earth".to_string());
    u.url = Some("https://x.com".to_string());
    u.created_at = Some("Tue Jun 02 20:12:29 +0000 2009".to_string());
    let expected = "# Elon Musk (@elonmusk) \u{2713}\n\n\
Technoking of Tesla, owner of X, founder of SpaceX & xAI\n\n\
**Location:** Earth\n\
**URL:** https://x.com\n\
**Joined:** Tue Jun 02 20:12:29 +0000 2009\n\
\n\
| Followers | Following | Tweets |\n|---|---|---|\n| 215,432,100 | 1,234 | 52,345 |\n\n";
    assert_eq!(format_user_profile(&u), expected);
}

#[test]
fn profile_skips_empty_fields() {
    let mut u = user("Plain", "plain", 5);
    u.description = Some(String::new());
    u.location = Some(String::new());
    u.url = Some(String::new());
    u.created_at = Some(String::new());
    let expected = "# Plain (@plain)\n\n**Joined:** \n\n| Followers | Following | Tweets |\n|---|---|---|\n| 5 | 0 | 0 |\n\n";
    assert_eq!(format_user_profile(&u), expected);
}

#[test]
fn tweet_with_all_metrics_and_date() {
    let mut t = tweet("1234567890", "AI agents are going to change everything about how we work.", Some(("Sam Altman", "sama")));
    t.like_count = 12345;
    t.retweet_count = 2456;
    t.reply_count = 891;
    t.view_count = 1234567;
    t.url = Some("https://x.com/sama/status/1234567890".to_string());
    t.created_at = Some("2026-03-09T15:30:00.000Z".to_string());
    let expected = "1. **Sam Altman** (@sama)\n   \
AI agents are going to change everything about how we work.\n   \
\u{2665} 12,345 | \u{21bb} 2,456 | \u{21a9} 891 | \u{1f441} 1,234,567\n   \
https://x.com/sama/status/1234567890\n   \
*2026-03-09T15:30:00.000Z*\n\n";
    assert_eq!(format_tweet(&t, Some(1)), expected);
}

#[test]
fn readme_search_tweet_block() {
    let mut t = tweet("1234567890", "AI agents are going to change everything about how we work.", Some(("Sam Altman", "sama")));
    t.like_count = 12345;
    t.retweet_count = 2456;
    t.reply_count = 891;
    t.view_count = 1234567;
    t.created_at = Some("2026-03-09T15:30:00.000Z".to_string());
    assert_eq!(
        format_tweet(&t, Some(1)),
        "1. **Sam Altman** (@sama)\n   AI agents are going to change everything about how we work.\n   \u{2665} 12,345 | \u{21bb} 2,456 | \u{21a9} 891 | \u{1f441} 1,234,567\n   https://x.com/sama/status/1234567890\n   *2026-03-09T15:30:00.000Z*\n\n"
    );
}

#[test]
fn tweet_with_some_metrics() {
    let mut t = tweet("9876543210", "Hi", Some(("Andrej Karpathy", "kaborthy")));
    t.like_count = 8901;
    t.retweet_count = 1234;
    t.url = Some("https://x.com/kaborthy/status/9876543210".to_string());
    let expected = "**Andrej Karpathy** (@kaborthy)\nHi\n\u{2665} 8,901 | \u{21bb} 1,234\nhttps://x.com/kaborthy/status/9876543210\n\n";
    assert_eq!(format_tweet(&t, None), expected);
}

#[test]
fn tweet_without_author_url_or_metrics() {
    let mut t = tweet("42", "text", None);
    t.view_count = 0;
    t.reply_count = 3;
    let expected = "**Unknown** (@unknown)\ntext\n\u{21a9} 3\nhttps://x.com/unknown/status/42\n\n";
    assert_eq!(format_tweet(&t, None), expected);
    let bare = tweet("7", "x", Some(("A", "a")));
    assert_eq!(format_tweet(&bare, Some(12)), "12. **A** (@a)\n   x\n   https://x.com/a/status/7\n\n");
}

#[test]
fn tweet_list_numbers_from_one() {
    let ts = vec![tweet("1", "one", Some(("A", "a"))), tweet("2", "two", Some(("B", "b")))];
    let expected = "## Head\n\n1. **A** (@a)\n   one\n   https://x.com/a/status/1\n\n2. **B** (@b)\n   two\n   https://x.com/b/status/2\n\n";
    assert_eq!(format_tweet_list(&ts, "Head"), expected);
    assert_eq!(format_tweet_list(&[], "Empty"), "## Empty\n\n");
}

#[test]
fn user_list_with_marks_and_descriptions() {
    let mut a = user("GitHub", "github", 2500000);
    a.is_verified = true;
    a.description = Some("Where the world builds software".to_string());
    let mut b = user("Bob", "bob", 12);
    b.description = Some(String::new());
    let expected = "## Followers of @x (2 shown)\n\n\
1. **GitHub** (@github) \u{2713} \u{2014} 2,500,000 followers\n   Where the world builds software\n\
2. **Bob** (@bob) \u{2014} 12 followers\n\n";
    assert_eq!(format_user_list(&[a, b], "Followers of @x"), expected);
}

#[test]
fn user_list_cuts_long_ascii_description() {
    let mut a = user("Long", "long", 1);
    let desc: String = std::iter::repeat("abcdefghij").take(13).collect();
    a.description = Some(desc.clone());
    let expected = format!("## L (1 shown)\n\n1. **Long** (@long) \u{2014} 1 followers\n   {}...\n\n", &desc[..120]);
    assert_eq!(format_user_list(&[a], "L"), expected);
}

#[test]
fn user_list_keeps_description_of_exactly_120_bytes() {
    let mut a = user("Edge", "edge", 1);
    let desc: String = "x".repeat(120);
    a.description = Some(desc.clone());
    let expected = format!("## L (1 shown)\n\n1. **Edge** (@edge) \u{2014} 1 followers\n   {}\n\n", desc);
    assert_eq!(format_user_list(&[a], "L"), expected);
}

#[test]
fn user_list_cuts_multibyte_description_on_boundary() {
    let mut a = user("Uni", "uni", 1);
    // 40 three-byte characters make 120 bytes, then more text.
    let desc = format!("{}tail", "\u{2713}".repeat(40));
    a.description = Some(desc.clone());
    let expected = format!("## L (1 shown)\n\n1. **Uni** (@uni) \u{2014} 1 followers\n   {}...\n\n", "\u{2713}".repeat(40));
    assert_eq!(format_user_list(&[a], "L"), expected);
}

#[test]
fn trends_example() {
    let ts = vec![trend("#Bitcoin", 125000), trend("AI Agents", 89432), trend("SpaceX", 67890), trend("Quiet", 0)];
    let expected = "## Trending Topics\n\n\
1. **#Bitcoin** (125,000 tweets)\n\
2. **AI Agents** (89,432 tweets)\n\
3. **SpaceX** (67,890 tweets)\n\
4. **Quiet**\n\n";
    assert_eq!(format_trends(&ts), expected);
    assert_eq!(format_trends(&[]), "## Trending Topics\n\n\n");
    assert_eq!(format_number(125000), "125,000");
}
