//! The records that the service returns and that the cache stores.
use vstd::prelude::*;

verus! {

/// A JSON value, carried through untouched (a tweet's `entities`).
#[verifier::external_type_specification]
#[verifier::external_body]
pub struct ExJsonValue(serde_json::Value);

/// Generic response envelope of the service.
pub struct ApiResponse<T> {
    pub status: String,
    pub msg: Option<String>,
    pub data: Option<T>,
    pub has_next_page: bool,
    pub next_cursor: Option<String>,
}

/// A user profile.
#[derive(Debug, Clone)]
pub struct User {
    pub id: String,
    pub user_name: String,
    pub name: String,
    pub description: Option<String>,
    pub followers_count: u64,
    pub following_count: u64,
    pub tweets_count: u64,
    pub listed_count: u64,
    pub created_at: Option<String>,
    pub location: Option<String>,
    pub is_verified: bool,
    pub is_blue_verified: bool,
    pub profile_image_url: Option<String>,
    pub url: Option<String>,
}

/// A tweet.
#[derive(Debug, Clone)]
pub struct Tweet {
    pub id: String,
    pub text: String,
    pub created_at: Option<String>,
    pub author: Option<TweetAuthor>,
    pub retweet_count: u64,
    pub like_count: u64,
    pub reply_count: u64,
    pub quote_count: u64,
    pub view_count: u64,
    pub bookmark_count: u64,
    pub conversation_id: Option<String>,
    pub entities: Option<serde_json::Value>,
    pub url: Option<String>,
    pub is_retweet: bool,
    pub is_reply: bool,
    pub is_quote: bool,
}

/// The author of a tweet, as embedded in it.
#[derive(Debug, Clone)]
pub struct TweetAuthor {
    pub user_name: String,
    pub name: String,
    pub profile_image_url: Option<String>,
    pub is_verified: bool,
    pub is_blue_verified: bool,
}

/// A trending topic.
#[derive(Debug, Clone)]
pub struct Trend {
    pub name: String,
    pub tweet_count: u64,
    pub query: Option<String>,
    pub url: Option<String>,
}

/// The tweets found for a query, as cached.
#[derive(Debug, Clone)]
pub struct SearchResult {
    pub query: String,
    pub query_type: String,
    pub tweets: Vec<Tweet>,
}

/// A list of followers or followings, as cached.
#[derive(Debug, Clone)]
pub struct UserList {
    pub users: Vec<User>,
}

} // verus!
