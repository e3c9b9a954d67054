//! The decisions and texts of the program's commands: input checks,
//! headings, messages, and putting fetched tweets in the order asked for.
use vstd::prelude::*;
use crate::api::lemma_reverse_push;
use crate::cli::UserSection;
use crate::model::{Trend, Tweet, User};
use crate::output::{
    description_cut_ok, format_trends, format_tweet, format_tweet_list, format_user_list,
    format_user_profile, profile_text, trends_text, tweet_list_text, tweet_text, user_list_text,
};
use crate::text::{decimal, push_decimal};

verus! {

/// `char::is_whitespace`: the Unicode `White_Space` property.
pub open spec fn is_white_space(c: char) -> bool {
    let v = c as u32;
    (0x9 <= v <= 0xd) || v == 0x20 || v == 0x85 || v == 0xa0 || v == 0x1680 || (0x2000 <= v
        <= 0x200a) || v == 0x2028 || v == 0x2029 || v == 0x202f || v == 0x205f || v == 0x3000
}

/// Whether `s` is empty once trimmed: all of its characters are white space.
pub open spec fn is_blank_text(s: Seq<char>) -> bool {
    forall|i: int| 0 <= i < s.len() ==> is_white_space(#[trigger] s[i])
}

fn char_is_white_space(c: char) -> (res: bool)
    ensures
        res == is_white_space(c),
{
    let v = c as u32;
    (0x9 <= v && v <= 0xd) || v == 0x20 || v == 0x85 || v == 0xa0 || v == 0x1680 || (0x2000 <= v
        && v <= 0x200a) || v == 0x2028 || v == 0x2029 || v == 0x202f || v == 0x205f || v == 0x3000
}

/// Whether `s.trim().is_empty()`: a search query or user name that is blank
/// is refused.
pub fn is_blank(s: &str) -> (res: bool)
    ensures
        res == is_blank_text(s@),
{
    let mut blank = true;
    for c in it: s.chars()
        invariant
            it.seq() == s@,
            blank == (forall|i: int| 0 <= i < it.index() ==> is_white_space(#[trigger] s@[i])),
    {
        assert(c == s@[it.index() as int]);
        if !char_is_white_space(c) {
            blank = false;
        }
    }
    blank
}

/// `Twitter Search: "<query>" (<n> results)`
pub fn search_header(query: &str, count: usize) -> (res: String)
    ensures
        res@ == "Twitter Search: \""@ + query@ + "\" ("@ + decimal(count as nat) + " results)"@,
{
    let mut out = String::new();
    out.push_str("Twitter Search: \"");
    out.push_str(query);
    out.push_str("\" (");
    push_decimal(&mut out, count as u64);
    out.push_str(" results)");
    out
}

/// `No results found for: <query>`
pub fn no_results_message(query: &str) -> (res: String)
    ensures
        res@ == "No results found for: "@ + query@,
{
    let mut out = String::new();
    out.push_str("No results found for: ");
    out.push_str(query);
    out
}

/// The search that finds a user's tweets: `from:<username>`.
pub fn user_tweets_query(username: &str) -> (res: String)
    ensures
        res@ == "from:"@ + username@,
{
    let mut out = String::new();
    out.push_str("from:");
    out.push_str(username);
    out
}

/// `Tweets by @<username>`, the heading of cached tweets.
pub fn cached_user_tweets_header(username: &str) -> (res: String)
    ensures
        res@ == "Tweets by @"@ + username@,
{
    let mut out = String::new();
    out.push_str("Tweets by @");
    out.push_str(username);
    out
}

/// `Tweets by @<username> (<n> shown)`, the heading of fetched tweets.
pub fn user_tweets_header(username: &str, count: usize) -> (res: String)
    ensures
        res@ == "Tweets by @"@ + username@ + " ("@ + decimal(count as nat) + " shown)"@,
{
    let mut out = String::new();
    out.push_str("Tweets by @");
    out.push_str(username);
    out.push_str(" (");
    push_decimal(&mut out, count as u64);
    out.push_str(" shown)");
    out
}

/// `No tweets found for @<username>`
pub fn no_user_tweets_message(username: &str) -> (res: String)
    ensures
        res@ == "No tweets found for @"@ + username@,
{
    let mut out = String::new();
    out.push_str("No tweets found for @");
    out.push_str(username);
    out
}

/// `Followers of @<username>`
pub fn followers_label(username: &str) -> (res: String)
    ensures
        res@ == "Followers of @"@ + username@,
{
    let mut out = String::new();
    out.push_str("Followers of @");
    out.push_str(username);
    out
}

/// `@<username> is following`
pub fn following_label(username: &str) -> (res: String)
    ensures
        res@ == "@"@ + username@ + " is following"@,
{
    let mut out = String::new();
    out.push_str("@");
    out.push_str(username);
    out.push_str(" is following");
    out
}

/// The index of the first tweet in `ts` with id `id`.
pub open spec fn first_with_id(ts: Seq<Tweet>, id: Seq<char>) -> Option<int>
    decreases ts.len(),
{
    if ts.len() == 0 {
        None
    } else {
        match first_with_id(ts.drop_last(), id) {
            Some(j) => Some(j),
            None => if ts.last().id@ == id {
                Some(ts.len() - 1)
            } else {
                None
            },
        }
    }
}

/// For each id asked for, in order, the index of the first tweet with that
/// id; ids with no tweet are left out.
pub open spec fn ordered_indices(ids: Seq<String>, ts: Seq<Tweet>) -> Seq<usize>
    decreases ids.len(),
{
    if ids.len() == 0 {
        Seq::empty()
    } else {
        ordered_indices(ids.drop_last(), ts) + match first_with_id(ts, ids.last()@) {
            Some(j) => seq![j as usize],
            None => Seq::empty(),
        }
    }
}

/// The index of the first tweet with id `id`, if any.
fn find_tweet(tweets: &[Tweet], id: &String) -> (res: Option<usize>)
    ensures
        res matches Some(j) ==> first_with_id(tweets@, id@) == Some(j as int),
        res is None ==> first_with_id(tweets@, id@) is None,
{
    let n = tweets.len();
    for j in 0..n
        invariant
            n == tweets@.len(),
            first_with_id(tweets@.take(j as int), id@) is None,
    {
        proof {
            assert(tweets@.take(j + 1).drop_last() =~= tweets@.take(j as int));
        }
        if tweets[j].id == *id {
            proof {
                lemma_first_with_id_prefix(tweets@, (j + 1) as int, id@);
            }
            return Some(j);
        }
    }
    proof {
        assert(tweets@.take(n as int) =~= tweets@);
    }
    None
}

/// A match found in a prefix is the match of the whole sequence.
proof fn lemma_first_with_id_prefix(ts: Seq<Tweet>, k: int, id: Seq<char>)
    requires
        0 <= k <= ts.len(),
        first_with_id(ts.take(k), id) is Some,
    ensures
        first_with_id(ts, id) == first_with_id(ts.take(k), id),
    decreases ts.len() - k,
{
    if k < ts.len() {
        assert(ts.take(k + 1).drop_last() =~= ts.take(k));
        lemma_first_with_id_prefix(ts, k + 1, id);
    } else {
        assert(ts.take(k) =~= ts);
    }
}

/// Puts tweets in the order of the ids asked for: the index of the first
/// tweet of each id, skipping ids that no tweet has.
pub fn order_by_ids(ids: &[String], tweets: &[Tweet]) -> (res: Vec<usize>)
    ensures
        res@ == ordered_indices(ids@, tweets@),
        forall|k: int| 0 <= k < res@.len() ==> #[trigger] res@[k] < tweets@.len(),
{
    let mut order: Vec<usize> = Vec::new();
    let n = ids.len();
    for i in 0..n
        invariant
            n == ids@.len(),
            order@ == ordered_indices(ids@.take(i as int), tweets@),
            forall|k: int| 0 <= k < order@.len() ==> #[trigger] order@[k] < tweets@.len(),
    {
        let found = find_tweet(tweets, &ids[i]);
        proof {
            assert(ids@.take(i + 1).drop_last() =~= ids@.take(i as int));
            assert(ids@.take(i + 1).last() == ids@[i as int]);
        }
        match found {
            Some(j) => {
                proof {
                    lemma_first_with_id_in_range(tweets@, ids@[i as int]@);
                }
                order.push(j);
            },
            None => {},
        }
        assert(order@ =~= ordered_indices(ids@.take(i + 1), tweets@));
    }
    proof {
        assert(ids@.take(n as int) =~= ids@);
    }
    order
}

/// The first match lies in range and holds the id.
pub proof fn lemma_first_with_id_in_range(ts: Seq<Tweet>, id: Seq<char>)
    ensures
        first_with_id(ts, id) matches Some(j) ==> 0 <= j < ts.len() && ts[j].id@ == id && forall|
            k: int,
        | 0 <= k < j ==> ts[k].id@ != id,
        first_with_id(ts, id) is None ==> forall|k: int| 0 <= k < ts.len() ==> ts[k].id@ != id,
    decreases ts.len(),
{
    if ts.len() > 0 {
        let p = ts.drop_last();
        lemma_first_with_id_in_range(p, id);
        match first_with_id(p, id) {
            Some(j) => {
                assert(p[j] == ts[j]);
                assert forall|k: int| 0 <= k < j implies ts[k].id@ != id by {
                    assert(p[k] == ts[k]);
                }
            },
            None => {
                assert forall|k: int| 0 <= k < ts.len() - 1 implies ts[k].id@ != id by {
                    assert(p[k] == ts[k]);
                }
            },
        }
    }
}

/// What a command that answers from the cache when it can has just learnt.
#[derive(Debug, Clone, Copy)]
pub enum CommandEvent {
    /// The command has begun.
    Started,
    /// The cache held a fresh entry.
    CacheHit,
    /// The cache held none, or reading it is off.
    CacheMiss,
    /// The service answered; `empty` where it gave nothing.
    Fetched { empty: bool },
    /// Writing the answer to the cache was tried; `ok` where it succeeded.
    Stored { ok: bool },
    /// The result, or the message, was printed.
    Shown,
}

/// What such a command does next.
#[derive(Debug, Clone, Copy)]
pub enum CommandAction {
    /// Look the request up in the cache.
    ReadCache,
    /// Print the cached entry.
    ShowCached,
    /// Send the request to the service.
    Fetch,
    /// Print the message for an empty answer.
    ShowEmpty,
    /// Write the answer to the cache.
    Store,
    /// Print the answer.
    ShowFetched,
    /// The command is done.
    Finish,
}

/// The rule of such a command: read the cache first; a hit is printed and
/// nothing is sent; on a miss the request is sent; an empty answer is
/// reported by a message (where the command has one) and not cached; any
/// other answer is written to the cache and printed whether or not the
/// write succeeded.
pub open spec fn action_after(event: CommandEvent, reports_empty: bool) -> CommandAction {
    match event {
        CommandEvent::Started => CommandAction::ReadCache,
        CommandEvent::CacheHit => CommandAction::ShowCached,
        CommandEvent::CacheMiss => CommandAction::Fetch,
        CommandEvent::Fetched { empty } => if empty && reports_empty {
            CommandAction::ShowEmpty
        } else {
            CommandAction::Store
        },
        CommandEvent::Stored { ok: _ } => CommandAction::ShowFetched,
        CommandEvent::Shown => CommandAction::Finish,
    }
}

/// The next action of a command after `event`; `reports_empty` where the
/// command has a message for an empty answer.
pub fn next_action(event: CommandEvent, reports_empty: bool) -> (res: CommandAction)
    ensures
        res == action_after(event, reports_empty),
{
    match event {
        CommandEvent::Started => CommandAction::ReadCache,
        CommandEvent::CacheHit => CommandAction::ShowCached,
        CommandEvent::CacheMiss => CommandAction::Fetch,
        CommandEvent::Fetched { empty } => if empty && reports_empty {
            CommandAction::ShowEmpty
        } else {
            CommandAction::Store
        },
        CommandEvent::Stored { ok: _ } => CommandAction::ShowFetched,
        CommandEvent::Shown => CommandAction::Finish,
    }
}

/// The event an action brings about, where the cache holds an entry
/// (`hit`), the service's answer is empty (`empty`) and a cache write
/// succeeds (`stored`); `None` once the command is done.
pub open spec fn event_after(action: CommandAction, hit: bool, empty: bool, stored: bool) -> Option<CommandEvent> {
    match action {
        CommandAction::ReadCache => Some(
            if hit {
                CommandEvent::CacheHit
            } else {
                CommandEvent::CacheMiss
            },
        ),
        CommandAction::Fetch => Some(CommandEvent::Fetched { empty }),
        CommandAction::Store => Some(CommandEvent::Stored { ok: stored }),
        CommandAction::ShowCached | CommandAction::ShowEmpty | CommandAction::ShowFetched => Some(
            CommandEvent::Shown,
        ),
        CommandAction::Finish => None,
    }
}

/// The actions a command takes from `event` on, at most `steps` of them.
pub open spec fn command_actions(
    event: CommandEvent,
    reports_empty: bool,
    hit: bool,
    empty: bool,
    stored: bool,
    steps: nat,
) -> Seq<CommandAction>
    decreases steps,
{
    if steps == 0 {
        Seq::empty()
    } else {
        let action = action_after(event, reports_empty);
        seq![action] + match event_after(action, hit, empty, stored) {
            Some(next) => command_actions(next, reports_empty, hit, empty, stored, (steps - 1) as nat),
            None => Seq::empty(),
        }
    }
}

/// A command runs in at most five actions and ends: a cache hit is printed
/// and nothing is sent; on a miss the request is sent once; an empty answer,
/// where the command reports one, gets its message and is not cached; any
/// other answer is cached and printed, and a failed cache write changes
/// nothing of that.
pub proof fn lemma_command_flow(reports_empty: bool, hit: bool, empty: bool, stored: bool)
    ensures
        ({
            let run = command_actions(CommandEvent::Started, reports_empty, hit, empty, stored, 5);
            &&& hit ==> run == seq![CommandAction::ReadCache, CommandAction::ShowCached, CommandAction::Finish]
            &&& !hit && empty && reports_empty ==> run == seq![
                CommandAction::ReadCache,
                CommandAction::Fetch,
                CommandAction::ShowEmpty,
                CommandAction::Finish,
            ]
            &&& !hit && !(empty && reports_empty) ==> run == seq![
                CommandAction::ReadCache,
                CommandAction::Fetch,
                CommandAction::Store,
                CommandAction::ShowFetched,
                CommandAction::Finish,
            ]
            &&& run == command_actions(CommandEvent::Started, reports_empty, hit, empty, !stored, 5)
        }),
{
    reveal_with_fuel(command_actions, 6);
    let run = command_actions(CommandEvent::Started, reports_empty, hit, empty, stored, 5);
    let other = command_actions(CommandEvent::Started, reports_empty, hit, empty, !stored, 5);
    if hit {
        assert(run =~= seq![CommandAction::ReadCache, CommandAction::ShowCached, CommandAction::Finish]);
        assert(other =~= seq![CommandAction::ReadCache, CommandAction::ShowCached, CommandAction::Finish]);
    } else if empty && reports_empty {
        assert(run =~= seq![
            CommandAction::ReadCache,
            CommandAction::Fetch,
            CommandAction::ShowEmpty,
            CommandAction::Finish,
        ]);
        assert(other =~= run);
    } else {
        assert(run =~= seq![
            CommandAction::ReadCache,
            CommandAction::Fetch,
            CommandAction::Store,
            CommandAction::ShowFetched,
            CommandAction::Finish,
        ]);
        assert(other =~= run);
    }
}

/// The tweets that the cache gave, in the order of their ids.
pub open spec fn cached_tweets(lookups: Seq<(String, Option<Tweet>)>) -> Seq<Tweet>
    decreases lookups.len(),
{
    if lookups.len() == 0 {
        Seq::empty()
    } else {
        cached_tweets(lookups.drop_last()) + match lookups.last().1 {
            Some(t) => seq![t],
            None => Seq::empty(),
        }
    }
}

/// The ids that the cache had no tweet for, in order.
pub open spec fn uncached_ids(lookups: Seq<(String, Option<Tweet>)>) -> Seq<String>
    decreases lookups.len(),
{
    if lookups.len() == 0 {
        Seq::empty()
    } else {
        uncached_ids(lookups.drop_last()) + match lookups.last().1 {
            Some(_) => Seq::empty(),
            None => seq![lookups.last().0],
        }
    }
}

/// Splits the ids asked for by what a cache lookup gave for each: the
/// cached tweets, and the ids still to be fetched, each in the order asked.
pub fn split_cache_lookups(lookups: Vec<(String, Option<Tweet>)>) -> (res: (Vec<Tweet>, Vec<String>))
    ensures
        res.0@ == cached_tweets(lookups@),
        res.1@ == uncached_ids(lookups@),
{
    let ghost all = lookups@;
    let mut rest = lookups;
    let mut pending: Vec<(String, Option<Tweet>)> = Vec::new();
    assert(all =~= rest@ + pending@.reverse());
    while rest.len() > 0
        invariant
            all == rest@ + pending@.reverse(),
        decreases rest.len(),
    {
        let ghost before = rest@;
        let item = rest.pop().unwrap();
        proof {
            assert(before == rest@.push(item));
            lemma_reverse_push(pending@, item);
        }
        pending.push(item);
        assert(all =~= rest@ + pending@.reverse());
    }
    let mut tweets: Vec<Tweet> = Vec::new();
    let mut missing: Vec<String> = Vec::new();
    let ghost mut done: Seq<(String, Option<Tweet>)> = Seq::empty();
    assert(all =~= done + pending@.reverse());
    while pending.len() > 0
        invariant
            all == done + pending@.reverse(),
            tweets@ == cached_tweets(done),
            missing@ == uncached_ids(done),
        decreases pending.len(),
    {
        let ghost before = pending@;
        let item = pending.pop().unwrap();
        proof {
            assert(before == pending@.push(item));
            lemma_reverse_push(pending@, item);
            assert(done.push(item).drop_last() =~= done);
            done = done.push(item);
            assert(all =~= done + pending@.reverse());
        }
        let (id, hit) = item;
        match hit {
            Some(t) => {
                tweets.push(t);
            },
            None => {
                missing.push(id);
            },
        }
        proof {
            assert(tweets@ =~= cached_tweets(done));
            assert(missing@ =~= uncached_ids(done));
        }
    }
    proof {
        assert(done =~= all);
    }
    (tweets, missing)
}

/// The first `count` trends.
pub fn limit_trends(trends: Vec<Trend>, count: usize) -> (res: Vec<Trend>)
    ensures
        res@ == if trends@.len() <= count {
            trends@
        } else {
            trends@.take(count as int)
        },
{
    let mut trends = trends;
    trends.truncate(count);
    trends
}


/// A rendered result followed by its `*Data from: <time>*` line.
pub open spec fn with_data_line(body: Seq<char>, time: Seq<char>) -> Seq<char> {
    body + "*Data from: "@ + time + "*\n"@
}

fn push_data_line(out: &mut String, time: &str)
    ensures
        final(out)@ == with_data_line(old(out)@, time@),
{
    out.push_str("*Data from: ");
    out.push_str(time);
    out.push_str("*\n");
}

/// The Markdown of a search: the numbered tweets under a heading with the
/// query and their number, then the time of the data.
pub fn search_markdown(query: &str, tweets: &[Tweet], time: &str) -> (res: String)
    ensures
        res@ == with_data_line(
            tweet_list_text(
                tweets@,
                "Twitter Search: \""@ + query@ + "\" ("@ + decimal(tweets@.len()) + " results)"@,
            ),
            time@,
        ),
{
    let header = search_header(query, tweets.len());
    let mut out = format_tweet_list(tweets, header.as_str());
    push_data_line(&mut out, time);
    out
}

/// The Markdown of a user's profile and the time of the data.
pub fn profile_markdown(user: &User, time: &str) -> (res: String)
    ensures
        res@ == with_data_line(profile_text(*user), time@),
{
    let mut out = format_user_profile(user);
    push_data_line(&mut out, time);
    out
}

/// The Markdown of a user's tweets: headed `Tweets by @<user>` when they
/// come from the cache and `Tweets by @<user> (<n> shown)` when fetched.
pub fn user_tweets_markdown(username: &str, tweets: &[Tweet], from_cache: bool, time: &str) -> (res: String)
    ensures
        res@ == with_data_line(
            tweet_list_text(
                tweets@,
                if from_cache {
                    "Tweets by @"@ + username@
                } else {
                    "Tweets by @"@ + username@ + " ("@ + decimal(tweets@.len()) + " shown)"@
                },
            ),
            time@,
        ),
{
    let header = if from_cache {
        cached_user_tweets_header(username)
    } else {
        user_tweets_header(username, tweets.len())
    };
    let mut out = format_tweet_list(tweets, header.as_str());
    push_data_line(&mut out, time);
    out
}

/// The Markdown of a list of followers or followings.
pub fn user_list_markdown(users: &[User], label: &str, time: &str) -> (res: String)
    requires
        forall|k: int| 0 <= k < users@.len() ==> description_cut_ok(#[trigger] users@[k].description),
    ensures
        res@ == with_data_line(user_list_text(users@, label@), time@),
{
    let mut out = format_user_list(users, label);
    push_data_line(&mut out, time);
    out
}

/// The Markdown of trending topics.
pub fn trends_markdown(trends: &[Trend], time: &str) -> (res: String)
    ensures
        res@ == with_data_line(trends_text(trends@), time@),
{
    let mut out = format_trends(trends);
    push_data_line(&mut out, time);
    out
}

/// The blocks of the tweets at `order`, unnumbered.
pub open spec fn tweets_at(ts: Seq<Tweet>, order: Seq<usize>) -> Seq<char>
    decreases order.len(),
{
    if order.len() == 0 {
        Seq::empty()
    } else {
        tweets_at(ts, order.drop_last()) + tweet_text(ts[order.last() as int], None)
    }
}

/// `## Tweet Details (<n> tweet)` for one tweet, `(<n> tweets)` for more.
pub open spec fn tweet_details_heading(n: nat) -> Seq<char> {
    "## Tweet Details ("@ + decimal(n) + (if n == 1 {
        " tweet)\n\n"@
    } else {
        " tweets)\n\n"@
    })
}

/// The Markdown of tweets fetched by id: a heading with their number, each
/// tweet asked for in the order of the ids, then the time of the data.
pub fn tweets_by_id_markdown(ids: &[String], tweets: &[Tweet], time: &str) -> (res: String)
    ensures
        res@ == with_data_line(
            tweet_details_heading(ordered_indices(ids@, tweets@).len()) + tweets_at(
                tweets@,
                ordered_indices(ids@, tweets@),
            ),
            time@,
        ),
{
    let order = order_by_ids(ids, tweets);
    let mut out = String::new();
    let n = order.len();
    out.push_str("## Tweet Details (");
    push_decimal(&mut out, n as u64);
    if n == 1 {
        out.push_str(" tweet)\n\n");
    } else {
        out.push_str(" tweets)\n\n");
    }
    let ghost head = out@;
    assert(head =~= tweet_details_heading(n as nat));
    for k in 0..n
        invariant
            n == order@.len(),
            order@ == ordered_indices(ids@, tweets@),
            forall|m: int| 0 <= m < order@.len() ==> #[trigger] order@[m] < tweets@.len(),
            out@ == head + tweets_at(tweets@, order@.take(k as int)),
    {
        let j = order[k];
        assert(order@[k as int] < tweets@.len());
        let block = format_tweet(&tweets[j], None);
        out.push_str(block.as_str());
        proof {
            assert(order@.take(k + 1).drop_last() =~= order@.take(k as int));
        }
    }
    proof {
        assert(order@.take(n as int) =~= order@);
        assert(order@.take(0) =~= Seq::<usize>::empty());
    }
    push_data_line(&mut out, time);
    out
}


/// Ordering keeps to what was asked: at most one tweet per id asked for,
/// each with an id that was asked for, and one for every id that some tweet
/// has.
pub proof fn lemma_ordered_tweets_match_ids(ids: Seq<String>, ts: Seq<Tweet>)
    requires
        ts.len() <= usize::MAX,
    ensures
        ordered_indices(ids, ts).len() <= ids.len(),
        forall|k: int|
            0 <= k < ordered_indices(ids, ts).len() ==> {
                let j = #[trigger] ordered_indices(ids, ts)[k];
                &&& j < ts.len()
                &&& exists|i: int| 0 <= i < ids.len() && ts[j as int].id@ == ids[i]@
            },
        (forall|i: int| 0 <= i < ids.len() ==> first_with_id(ts, #[trigger] ids[i]@) is Some)
            ==> ordered_indices(ids, ts).len() == ids.len(),
    decreases ids.len(),
{
    if ids.len() > 0 {
        let p = ids.drop_last();
        lemma_ordered_tweets_match_ids(p, ts);
        lemma_first_with_id_in_range(ts, ids.last()@);
        let o = ordered_indices(ids, ts);
        let op = ordered_indices(p, ts);
        assert forall|k: int| 0 <= k < o.len() implies ({
            let j = #[trigger] o[k];
            &&& j < ts.len()
            &&& exists|i: int| 0 <= i < ids.len() && ts[j as int].id@ == ids[i]@
        }) by {
            if k < op.len() {
                assert(o[k] == op[k]);
                let j = op[k];
                let i = choose|i: int| 0 <= i < p.len() && ts[j as int].id@ == p[i]@;
                assert(p[i] == ids[i]);
            } else {
                let j = first_with_id(ts, ids.last()@)->0;
                assert(o == op + seq![j as usize]);
                assert(o[k] == j as usize);
                assert(ts[o[k] as int].id@ == ids[ids.len() - 1]@);
            }
        }
        if forall|i: int| 0 <= i < ids.len() ==> first_with_id(ts, #[trigger] ids[i]@) is Some {
            assert forall|i: int| 0 <= i < p.len() implies first_with_id(ts, #[trigger] p[i]@) is Some by {
                assert(p[i] == ids[i]);
            }
            assert(first_with_id(ts, ids[ids.len() - 1]@) is Some);
        }
    }
}


/// For the followers and following sections: the list's name in the cache
/// and the heading of the list.
pub fn list_section(section: UserSection, username: &str) -> (res: Option<(&'static str, String)>)
    ensures
        section is Followers ==> (res matches Some((kind, label)) && kind@ == "followers"@ && label@
            == "Followers of @"@ + username@),
        section is Following ==> (res matches Some((kind, label)) && kind@ == "following"@ && label@
            == "@"@ + username@ + " is following"@),
        (section is Overview || section is Tweets) ==> res is None,
{
    match section {
        UserSection::Followers => Some(("followers", followers_label(username))),
        UserSection::Following => Some(("following", following_label(username))),
        _ => None,
    }
}

} // verus!
