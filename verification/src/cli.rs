//! The commands of the program and their options, as parsed from the
//! command line.
use vstd::prelude::*;

verus! {

/// The command line: one command and the global options.
pub struct Cli {
    pub command: Commands,
    /// API key, over the environment and the config file.
    pub api_key: Option<String>,
    /// Bypass the local cache and fetch fresh data.
    pub no_cache: bool,
    /// Output raw JSON instead of Markdown.
    pub json: bool,
}

/// The commands.
pub enum Commands {
    /// Search tweets.
    Search { query: String, limit: usize, query_type: QueryType },
    /// A user's profile, tweets, followers or followings.
    User { username: String, section: UserSection, limit: usize },
    /// Tweets by id.
    Tweet { id: Vec<String> },
    /// Trending topics of a place (1 = worldwide).
    Trends { woeid: u64, count: usize },
}

/// The ordering of search results.
#[derive(Debug, Clone, Copy, PartialEq, Eq)]
pub enum QueryType {
    Latest,
    Top,
}

impl QueryType {
    /// The name of the ordering in the service's parameters.
    pub open spec fn spec_api_param(self) -> Seq<char> {
        match self {
            QueryType::Latest => "Latest"@,
            QueryType::Top => "Top"@,
        }
    }

    pub fn as_api_param(self) -> (res: &'static str)
        ensures
            res@ == self.spec_api_param(),
    {
        match self {
            QueryType::Latest => "Latest",
            QueryType::Top => "Top",
        }
    }
}

/// Which data of a user to show.
#[derive(Debug, Clone, Copy, PartialEq, Eq)]
pub enum UserSection {
    Overview,
    Tweets,
    Followers,
    Following,
}

} // verus!
