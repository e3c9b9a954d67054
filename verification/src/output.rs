//! Markdown rendering of profiles, tweets, user lists and trends.
use vstd::prelude::*;
use vstd::utf8::encode_utf8;
use crate::model::{Trend, Tweet, User};
use crate::timestamp::{epoch_text, format_epoch_seconds, seconds_since_epoch, shown_secs, since_epoch_secs};
use std::time::SystemTime;
pub use crate::text::format_number;
use crate::text::{
    char_count, lemma_char_count_concat, lemma_grouped_decimal_count, lemma_join_char_count,
    lemma_join_adjacent, lemma_join_occurs, lemma_occurs_extend, lemma_occurs_middle, lemma_occurs_prefix, lemma_occurs_within, lemma_utf8_prefix_fits, lemma_parts_char_count_concat, occurs_in, parts_char_count,
    char_utf8_width, decimal, join, lemma_join_push, grouped_decimal, lemma_utf8_len_take, lemma_utf8_prefix_take,
    push_decimal, push_grouped, utf8_len, utf8_prefix, utf8_width,
};

verus! {

/// The check mark shown after a verified name.
pub open spec fn verified_mark(is_blue_verified: bool, is_verified: bool) -> Seq<char> {
    if is_blue_verified || is_verified {
        " \u{2713}"@
    } else {
        Seq::empty()
    }
}

/// `prefix + s + suffix` when `o` holds a non-empty string, else nothing.
pub open spec fn line_if_nonempty(o: Option<String>, prefix: Seq<char>, suffix: Seq<char>) -> Seq<char> {
    match o {
        Some(s) => if s@.len() > 0 {
            prefix + s@ + suffix
        } else {
            Seq::empty()
        },
        None => Seq::empty(),
    }
}

/// The Markdown profile of a user.
pub open spec fn profile_text(u: User) -> Seq<char> {
    "# "@ + u.name@ + " (@"@ + u.user_name@ + ")"@ + verified_mark(u.is_blue_verified, u.is_verified)
        + profile_body(u)
}

/// What follows the heading of a profile: description, location, URL, join
/// date and the table of counts.
pub open spec fn profile_body(u: User) -> Seq<char> {
    "\n\n"@ + profile_lines(u) + profile_table(u)
}

/// The optional lines of a profile: description, location, URL and join
/// date.
pub open spec fn profile_lines(u: User) -> Seq<char> {
    line_if_nonempty(u.description, Seq::empty(), "\n\n"@)
        + line_if_nonempty(u.location, "**Location:** "@, "\n"@)
        + line_if_nonempty(u.url, "**URL:** "@, "\n"@)
        + match u.created_at {
        Some(c) => "**Joined:** "@ + c@ + "\n"@,
        None => Seq::empty(),
    }
}

/// The table of counts that ends a profile.
pub open spec fn profile_table(u: User) -> Seq<char> {
    "\n"@ + "| Followers | Following | Tweets |\n|---|---|---|\n| "@ + grouped_decimal(
        u.followers_count as nat,
    ) + " | "@ + grouped_decimal(u.following_count as nat) + " | "@ + grouped_decimal(
        u.tweets_count as nat,
    ) + " |\n"@ + "\n"@
}

/// Appends `prefix + s + suffix` when `o` holds a non-empty string.
fn push_line_if_nonempty(out: &mut String, o: &Option<String>, prefix: &str, suffix: &str)
    ensures
        final(out)@ == old(out)@ + line_if_nonempty(*o, prefix@, suffix@),
{
    match o {
        Some(s) => {
            if !s.as_str().is_empty() {
                out.push_str(prefix);
                out.push_str(s.as_str());
                out.push_str(suffix);
            }
        },
        None => {},
    }
    assert(final(out)@ =~= old(out)@ + line_if_nonempty(*o, prefix@, suffix@));
}

fn push_verified_mark(out: &mut String, is_blue_verified: bool, is_verified: bool)
    ensures
        final(out)@ == old(out)@ + verified_mark(is_blue_verified, is_verified),
{
    if is_blue_verified || is_verified {
        out.push_str(" \u{2713}");
    }
    assert(final(out)@ =~= old(out)@ + verified_mark(is_blue_verified, is_verified));
}

/// Renders a user's profile: name and handle, description, location, URL,
/// join date and a table of follower, following and tweet counts.
#[verifier::rlimit(40)]
pub fn format_user_profile(user: &User) -> (res: String)
    ensures
        res@ == profile_text(*user),
{
    let mut out = String::new();
    out.push_str("# ");
    out.push_str(user.name.as_str());
    out.push_str(" (@");
    out.push_str(user.user_name.as_str());
    out.push_str(")");
    push_verified_mark(&mut out, user.is_blue_verified, user.is_verified);
    let ghost heading = out@;
    out.push_str("\n\n");
    let ghost lines_start = out@;
    push_line_if_nonempty(&mut out, &user.description, "", "\n\n");
    push_line_if_nonempty(&mut out, &user.location, "**Location:** ", "\n");
    push_line_if_nonempty(&mut out, &user.url, "**URL:** ", "\n");
    let ghost before_joined = out@;
    match &user.created_at {
        Some(c) => {
            out.push_str("**Joined:** ");
            out.push_str(c.as_str());
            out.push_str("\n");
        },
        None => {},
    }
    let ghost after_joined = out@;
    let ghost table_start = out@;
    out.push_str("\n");
    out.push_str("| Followers | Following | Tweets |\n|---|---|---|\n| ");
    push_grouped(&mut out, user.followers_count);
    out.push_str(" | ");
    push_grouped(&mut out, user.following_count);
    out.push_str(" | ");
    push_grouped(&mut out, user.tweets_count);
    out.push_str(" |\n");
    out.push_str("\n");
    proof {
        reveal_strlit("");
        assert(""@ =~= Seq::<char>::empty());
        assert(after_joined =~= before_joined + match user.created_at {
            Some(c) => "**Joined:** "@ + c@ + "\n"@,
            None => Seq::empty(),
        });
        assert(table_start =~= lines_start + profile_lines(*user));
        assert(out@ =~= table_start + profile_table(*user));
        assert(out@ =~= heading + profile_body(*user));
        assert(out@ =~= profile_text(*user));
    }
    out
}


/// `seq![label + count]` when `count` is positive, else nothing.
pub open spec fn metric_part(label: Seq<char>, count: u64) -> Seq<Seq<char>> {
    if count > 0 {
        seq![label + grouped_decimal(count as nat)]
    } else {
        Seq::empty()
    }
}

/// The engagement figures of a tweet that are not zero: likes, retweets,
/// replies and views, in that order.
pub open spec fn metric_parts(t: Tweet) -> Seq<Seq<char>> {
    metric_part("\u{2665} "@, t.like_count) + metric_part("\u{21bb} "@, t.retweet_count)
        + metric_part("\u{21a9} "@, t.reply_count) + metric_part("\u{1f441} "@, t.view_count)
}

pub open spec fn tweet_author_name(t: Tweet) -> Seq<char> {
    match t.author {
        Some(a) => a.name@,
        None => "Unknown"@,
    }
}

pub open spec fn tweet_author_handle(t: Tweet) -> Seq<char> {
    match t.author {
        Some(a) => a.user_name@,
        None => "unknown"@,
    }
}

/// The first line of a tweet's block: number, author name and handle.
pub open spec fn tweet_heading(t: Tweet, index: Option<usize>) -> Seq<char> {
    (match index {
        Some(i) => decimal(i as nat) + ". "@,
        None => Seq::empty(),
    }) + "**"@ + tweet_author_name(t) + "** (@"@ + tweet_author_handle(t) + ")\n"@
}

/// The line of engagement figures, absent when all are zero.
pub open spec fn metrics_line(t: Tweet) -> Seq<char> {
    let parts = metric_parts(t);
    if parts.len() > 0 {
        join(parts, " | "@) + "\n"@
    } else {
        Seq::empty()
    }
}

/// The tweet's URL line, made from handle and id when the tweet has none.
pub open spec fn link_line(t: Tweet) -> Seq<char> {
    match t.url {
        Some(u) => u@ + "\n"@,
        None => "https://x.com/"@ + tweet_author_handle(t) + "/status/"@ + t.id@ + "\n"@,
    }
}

/// The tweet's date line in italics, absent when it has no date.
pub open spec fn date_line(t: Tweet) -> Seq<char> {
    match t.created_at {
        Some(d) => "*"@ + d@ + "*\n"@,
        None => Seq::empty(),
    }
}

/// Three spaces when `on`, else nothing: the indent of the lines of a
/// numbered tweet after its first.
pub open spec fn indent(on: bool) -> Seq<char> {
    if on {
        "   "@
    } else {
        Seq::empty()
    }
}

/// The text and figure lines of a tweet, each after `ind`.
pub open spec fn text_lines(t: Tweet, ind: Seq<char>) -> Seq<char> {
    ind + t.text@ + "\n"@ + (if metric_parts(t).len() > 0 {
        ind
    } else {
        Seq::empty()
    }) + metrics_line(t)
}

/// The link and date lines of a tweet, each after `ind`.
pub open spec fn link_lines(t: Tweet, ind: Seq<char>) -> Seq<char> {
    ind + link_line(t) + (if t.created_at is Some {
        ind
    } else {
        Seq::empty()
    }) + date_line(t)
}

/// The Markdown block of one tweet, numbered `index` when one is given.  In
/// a numbered block the lines after the first are indented by three spaces.
pub open spec fn tweet_text(t: Tweet, index: Option<usize>) -> Seq<char> {
    tweet_heading(t, index) + text_lines(t, indent(index is Some)) + link_lines(
        t,
        indent(index is Some),
    ) + "\n"@
}

/// Appends one engagement figure, with the separator when one came before.
fn push_metric(
    out: &mut String,
    first: &mut bool,
    label: &str,
    count: u64,
    Ghost(base): Ghost<Seq<char>>,
    Ghost(parts): Ghost<Seq<Seq<char>>>,
)
    requires
        old(out)@ == base + join(parts, " | "@),
        *old(first) == (parts.len() == 0),
    ensures
        final(out)@ == base + join(parts + metric_part(label@, count), " | "@),
        *final(first) == ((parts + metric_part(label@, count)).len() == 0),
{
    if count > 0 {
        if !*first {
            out.push_str(" | ");
        }
        out.push_str(label);
        push_grouped(out, count);
        *first = false;
        proof {
            let x = label@ + grouped_decimal(count as nat);
            lemma_join_push(parts, " | "@, x);
            assert(parts + metric_part(label@, count) =~= parts.push(x));
            assert(final(out)@ =~= base + join(parts.push(x), " | "@));
        }
    } else {
        assert(parts + metric_part(label@, count) =~= parts);
    }
}

fn push_heading(out: &mut String, tweet: &Tweet, index: Option<usize>)
    ensures
        final(out)@ == old(out)@ + tweet_heading(*tweet, index),
{
    let ghost start = out@;
    match index {
        Some(i) => {
            push_decimal(out, i as u64);
            out.push_str(". ");
        },
        None => {},
    }
    let ghost numbered = out@;
    let name: &str = match &tweet.author {
        Some(a) => a.name.as_str(),
        None => "Unknown",
    };
    let handle: &str = match &tweet.author {
        Some(a) => a.user_name.as_str(),
        None => "unknown",
    };
    out.push_str("**");
    out.push_str(name);
    out.push_str("** (@");
    out.push_str(handle);
    out.push_str(")\n");
    proof {
        assert(numbered =~= start + match index {
            Some(i) => decimal(i as nat) + ". "@,
            None => Seq::empty(),
        });
        assert(final(out)@ =~= old(out)@ + tweet_heading(*tweet, index));
    }
}

fn push_metrics_line(out: &mut String, tweet: &Tweet)
    ensures
        final(out)@ == old(out)@ + metrics_line(*tweet),
{
    let ghost base = out@;
    let mut first = true;
    let ghost p0: Seq<Seq<char>> = Seq::empty();
    proof {
        assert(out@ =~= base + join(p0, " | "@));
    }
    push_metric(out, &mut first, "\u{2665} ", tweet.like_count, Ghost(base), Ghost(p0));
    let ghost p1 = p0 + metric_part("\u{2665} "@, tweet.like_count);
    push_metric(out, &mut first, "\u{21bb} ", tweet.retweet_count, Ghost(base), Ghost(p1));
    let ghost p2 = p1 + metric_part("\u{21bb} "@, tweet.retweet_count);
    push_metric(out, &mut first, "\u{21a9} ", tweet.reply_count, Ghost(base), Ghost(p2));
    let ghost p3 = p2 + metric_part("\u{21a9} "@, tweet.reply_count);
    push_metric(out, &mut first, "\u{1f441} ", tweet.view_count, Ghost(base), Ghost(p3));
    let ghost p4 = p3 + metric_part("\u{1f441} "@, tweet.view_count);
    if !first {
        out.push_str("\n");
    }
    proof {
        assert(p4 =~= metric_parts(*tweet));
        assert(final(out)@ =~= old(out)@ + metrics_line(*tweet));
    }
}

fn push_link_line(out: &mut String, tweet: &Tweet)
    ensures
        final(out)@ == old(out)@ + link_line(*tweet),
{
    match &tweet.url {
        Some(url) => {
            out.push_str(url.as_str());
            out.push_str("\n");
        },
        None => {
            let handle: &str = match &tweet.author {
                Some(a) => a.user_name.as_str(),
                None => "unknown",
            };
            out.push_str("https://x.com/");
            out.push_str(handle);
            out.push_str("/status/");
            out.push_str(tweet.id.as_str());
            out.push_str("\n");
        },
    }
    assert(final(out)@ =~= old(out)@ + link_line(*tweet));
}

fn push_date_line(out: &mut String, tweet: &Tweet)
    ensures
        final(out)@ == old(out)@ + date_line(*tweet),
{
    match &tweet.created_at {
        Some(date) => {
            out.push_str("*");
            out.push_str(date.as_str());
            out.push_str("*\n");
        },
        None => {},
    }
    assert(final(out)@ =~= old(out)@ + date_line(*tweet));
}

fn push_indent(out: &mut String, on: bool)
    ensures
        final(out)@ == old(out)@ + indent(on),
{
    if on {
        out.push_str("   ");
    }
    assert(final(out)@ =~= old(out)@ + indent(on));
}

fn push_text_lines(out: &mut String, tweet: &Tweet, numbered: bool)
    ensures
        final(out)@ == old(out)@ + text_lines(*tweet, indent(numbered)),
{
    push_indent(out, numbered);
    out.push_str(tweet.text.as_str());
    out.push_str("\n");
    let ghost before_metrics = out@;
    let has_metrics = tweet.like_count > 0 || tweet.retweet_count > 0 || tweet.reply_count > 0
        || tweet.view_count > 0;
    push_indent(out, numbered && has_metrics);
    proof {
        assert(has_metrics == (metric_parts(*tweet).len() > 0));
        assert(out@ =~= before_metrics + (if metric_parts(*tweet).len() > 0 {
            indent(numbered)
        } else {
            Seq::empty()
        }));
    }
    push_metrics_line(out, tweet);
    assert(final(out)@ =~= old(out)@ + text_lines(*tweet, indent(numbered)));
}

fn push_link_lines(out: &mut String, tweet: &Tweet, numbered: bool)
    ensures
        final(out)@ == old(out)@ + link_lines(*tweet, indent(numbered)),
{
    push_indent(out, numbered);
    push_link_line(out, tweet);
    let ghost before_date = out@;
    push_indent(out, numbered && tweet.created_at.is_some());
    proof {
        assert(out@ =~= before_date + (if tweet.created_at is Some {
            indent(numbered)
        } else {
            Seq::empty()
        }));
    }
    push_date_line(out, tweet);
    assert(final(out)@ =~= old(out)@ + link_lines(*tweet, indent(numbered)));
}

fn push_tweet(out: &mut String, tweet: &Tweet, index: Option<usize>)
    ensures
        final(out)@ == old(out)@ + tweet_text(*tweet, index),
{
    let numbered = index.is_some();
    push_heading(out, tweet, index);
    push_text_lines(out, tweet, numbered);
    push_link_lines(out, tweet, numbered);
    out.push_str("\n");
    assert(final(out)@ =~= old(out)@ + tweet_text(*tweet, index));
}

/// Renders one tweet: author, text, the non-zero engagement figures, its URL
/// (or one made from the author's handle and the tweet id) and its date.
pub fn format_tweet(tweet: &Tweet, index: Option<usize>) -> (res: String)
    ensures
        res@ == tweet_text(*tweet, index),
{
    let mut out = String::new();
    push_tweet(&mut out, tweet, index);
    assert(out@ =~= tweet_text(*tweet, index));
    out
}


/// The blocks of `ts`, numbered from 1.
pub open spec fn numbered_tweets(ts: Seq<Tweet>) -> Seq<char>
    decreases ts.len(),
{
    if ts.len() == 0 {
        Seq::empty()
    } else {
        numbered_tweets(ts.drop_last()) + tweet_text(ts.last(), Some(ts.len() as usize))
    }
}

/// A `## header` line followed by the numbered blocks of the tweets.
pub open spec fn tweet_list_text(ts: Seq<Tweet>, header: Seq<char>) -> Seq<char> {
    "## "@ + header + "\n\n"@ + numbered_tweets(ts)
}

/// Renders a headed, numbered list of tweets.
pub fn format_tweet_list(tweets: &[Tweet], header: &str) -> (res: String)
    ensures
        res@ == tweet_list_text(tweets@, header@),
{
    let mut out = String::new();
    out.push_str("## ");
    out.push_str(header);
    out.push_str("\n\n");
    let ghost head = out@;
    let n = tweets.len();
    for i in 0..n
        invariant
            n == tweets@.len(),
            out@ == head + numbered_tweets(tweets@.take(i as int)),
    {
        push_tweet(&mut out, &tweets[i], Some(i + 1));
        proof {
            let ts = tweets@.take(i + 1);
            assert(ts.drop_last() =~= tweets@.take(i as int));
            assert(ts.last() == tweets@[i as int]);
        }
    }
    proof {
        assert(tweets@.take(n as int) =~= tweets@);
        assert(out@ =~= tweet_list_text(tweets@, header@));
    }
    out
}

/// A description cut to at most 120 bytes, with `...` after a cut.
pub open spec fn short_description(d: Seq<char>) -> Seq<char> {
    if utf8_len(d) > 120 {
        utf8_prefix(d, 120) + "..."@
    } else {
        d
    }
}

/// A description longer than 120 bytes has a character boundary at byte
/// 120, where it is cut.
pub open spec fn description_cut_ok(d: Option<String>) -> bool {
    match d {
        Some(s) => utf8_len(s@) > 120 ==> utf8_len(utf8_prefix(s@, 120)) == 120,
        None => true,
    }
}

/// The description line under a listed user, absent when it is empty.
pub open spec fn description_line(d: Option<String>) -> Seq<char> {
    match d {
        Some(s) => if s@.len() > 0 {
            "   "@ + short_description(s@) + "\n"@
        } else {
            Seq::empty()
        },
        None => Seq::empty(),
    }
}

/// One entry of a user list, numbered `i`.
pub open spec fn user_entry(u: User, i: nat) -> Seq<char> {
    decimal(i) + ". **"@ + u.name@ + "** (@"@ + u.user_name@ + ")"@ + verified_mark(
        u.is_blue_verified,
        u.is_verified,
    ) + " \u{2014} "@ + grouped_decimal(u.followers_count as nat) + " followers\n"@
        + description_line(u.description)
}

/// The entries of `us`, numbered from 1.
pub open spec fn numbered_users(us: Seq<User>) -> Seq<char>
    decreases us.len(),
{
    if us.len() == 0 {
        Seq::empty()
    } else {
        numbered_users(us.drop_last()) + user_entry(us.last(), us.len())
    }
}

/// A headed, numbered list of users with their follower counts.
pub open spec fn user_list_text(us: Seq<User>, label: Seq<char>) -> Seq<char> {
    "## "@ + label + " ("@ + decimal(us.len()) + " shown)\n\n"@ + numbered_users(us) + "\n"@
}

/// Appends the first 120 bytes of `d` and `...` when `d` is longer than 120
/// bytes, else `d` itself.
fn push_short_description(out: &mut String, d: &str)
    requires
        utf8_len(d@) > 120 ==> utf8_len(utf8_prefix(d@, 120)) == 120,
    ensures
        final(out)@ == old(out)@ + short_description(d@),
{
    let ghost base = out@;
    let ghost s = d@;
    let mut used: usize = 0;
    let mut cut = false;
    for c in it: d.chars()
        invariant
            it.seq() == s,
            used <= 120,
            !cut ==> used == utf8_len(s.take(it.index() as int)),
            !cut ==> out@ == base + s.take(it.index() as int),
            cut ==> utf8_len(s) > 120 && out@ == base + utf8_prefix(s, 120),
    {
        let ghost i = it.index();
        assert(c == s[i]);
        if !cut {
            proof {
                lemma_utf8_len_take(s, i);
            }
            let w = char_utf8_width(c);
            if used + w <= 120 {
                out.push(c);
                used = used + w;
                assert(s.take(i + 1) =~= s.take(i).push(c));
            } else {
                proof {
                    lemma_utf8_prefix_take(s, i, 120);
                }
                cut = true;
            }
        }
    }
    if cut {
        out.push_str("...");
    } else {
        assert(s.take(s.len() as int) =~= s);
    }
}

#[verifier::rlimit(40)]
fn push_user_entry(out: &mut String, user: &User, i: usize)
    requires
        description_cut_ok(user.description),
    ensures
        final(out)@ == old(out)@ + user_entry(*user, i as nat),
{
    push_decimal(out, i as u64);
    out.push_str(". **");
    out.push_str(user.name.as_str());
    out.push_str("** (@");
    out.push_str(user.user_name.as_str());
    out.push_str(")");
    push_verified_mark(out, user.is_blue_verified, user.is_verified);
    out.push_str(" \u{2014} ");
    push_grouped(out, user.followers_count);
    out.push_str(" followers\n");
    let ghost before_desc = out@;
    push_description_line(out, &user.description);
    proof {
        assert(final(out)@ =~= old(out)@ + user_entry(*user, i as nat));
    }
}

fn push_description_line(out: &mut String, description: &Option<String>)
    requires
        description_cut_ok(*description),
    ensures
        final(out)@ == old(out)@ + description_line(*description),
{
    match description {
        Some(desc) => {
            if !desc.as_str().is_empty() {
                out.push_str("   ");
                push_short_description(out, desc.as_str());
                out.push_str("\n");
            }
        },
        None => {},
    }
    assert(final(out)@ =~= old(out)@ + description_line(*description));
}

/// Renders a list of users: a `## label (n shown)` heading, then per user
/// its number, name, handle, check mark, follower count and description,
/// cut after 120 bytes.
pub fn format_user_list(users: &[User], label: &str) -> (res: String)
    requires
        forall|k: int| 0 <= k < users@.len() ==> description_cut_ok(#[trigger] users@[k].description),
    ensures
        res@ == user_list_text(users@, label@),
{
    let mut out = String::new();
    out.push_str("## ");
    out.push_str(label);
    out.push_str(" (");
    push_decimal(&mut out, users.len() as u64);
    out.push_str(" shown)\n\n");
    let ghost head = out@;
    let n = users.len();
    for i in 0..n
        invariant
            n == users@.len(),
            forall|k: int| 0 <= k < users@.len() ==> description_cut_ok(#[trigger] users@[k].description),
            out@ == head + numbered_users(users@.take(i as int)),
    {
        assert(description_cut_ok(users@[i as int].description));
        push_user_entry(&mut out, &users[i], i + 1);
        proof {
            let us = users@.take(i + 1);
            assert(us.drop_last() =~= users@.take(i as int));
            assert(us.last() == users@[i as int]);
        }
    }
    out.push_str("\n");
    proof {
        assert(users@.take(n as int) =~= users@);
        assert(out@ =~= user_list_text(users@, label@));
    }
    out
}

/// One line of the trends list, numbered `i`: the name and, when known, the
/// tweet count.
pub open spec fn trend_line(t: Trend, i: nat) -> Seq<char> {
    decimal(i) + ". **"@ + t.name@ + "**"@ + (if t.tweet_count > 0 {
        " ("@ + grouped_decimal(t.tweet_count as nat) + " tweets)"@
    } else {
        Seq::empty()
    }) + "\n"@
}

pub open spec fn numbered_trends(ts: Seq<Trend>) -> Seq<char>
    decreases ts.len(),
{
    if ts.len() == 0 {
        Seq::empty()
    } else {
        numbered_trends(ts.drop_last()) + trend_line(ts.last(), ts.len())
    }
}

/// The `## Trending Topics` section.
pub open spec fn trends_text(ts: Seq<Trend>) -> Seq<char> {
    "## Trending Topics\n\n"@ + numbered_trends(ts) + "\n"@
}

fn push_trend_line(out: &mut String, trend: &Trend, i: usize)
    ensures
        final(out)@ == old(out)@ + trend_line(*trend, i as nat),
{
    push_decimal(out, i as u64);
    out.push_str(". **");
    out.push_str(trend.name.as_str());
    out.push_str("**");
    let ghost before_count = out@;
    if trend.tweet_count > 0 {
        out.push_str(" (");
        push_grouped(out, trend.tweet_count);
        out.push_str(" tweets)");
    }
    let ghost after_count = out@;
    out.push_str("\n");
    proof {
        assert(after_count =~= before_count + (if trend.tweet_count > 0 {
            " ("@ + grouped_decimal(trend.tweet_count as nat) + " tweets)"@
        } else {
            Seq::empty()
        }));
        assert(final(out)@ =~= old(out)@ + trend_line(*trend, i as nat));
    }
}

/// Renders the numbered list of trending topics.
pub fn format_trends(trends: &[Trend]) -> (res: String)
    ensures
        res@ == trends_text(trends@),
{
    let mut out = String::new();
    out.push_str("## Trending Topics\n\n");
    let ghost head = out@;
    let n = trends.len();
    for i in 0..n
        invariant
            n == trends@.len(),
            out@ == head + numbered_trends(trends@.take(i as int)),
    {
        push_trend_line(&mut out, &trends[i], i + 1);
        proof {
            let ts = trends@.take(i + 1);
            assert(ts.drop_last() =~= trends@.take(i as int));
            assert(ts.last() == trends@[i as int]);
        }
    }
    out.push_str("\n");
    proof {
        assert(trends@.take(n as int) =~= trends@);
        assert(out@ =~= trends_text(trends@));
    }
    out
}

/// Renders a cache or fetch time as `YYYY-MM-DD HH:MM UTC`; a time before
/// the epoch renders as the epoch.
pub fn format_cached_at(cached_at: SystemTime) -> (res: String)
    ensures
        res@ == epoch_text(shown_secs(cached_at)),
        since_epoch_secs(cached_at) is None ==> res@ == epoch_text(0),
{
    let secs: u64 = match seconds_since_epoch(&cached_at) {
        Some(s) => s,
        None => 0,
    };
    format_epoch_seconds(secs)
}


/// The same user with neither verification flag set.
pub open spec fn unverified(u: User) -> User {
    User { is_blue_verified: false, is_verified: false, ..u }
}

/// The profile heading carries the check mark exactly when the user is
/// blue-verified or verified: the profile starts `# name (@handle)`; for
/// such a user ` ✓` follows, and after it comes the profile of the same
/// user unverified, from where that goes straight on to the blank line.
pub proof fn lemma_profile_mark(u: User)
    ensures
        ({
            let head = "# "@ + u.name@ + " (@"@ + u.user_name@ + ")"@;
            let plain = profile_text(unverified(u));
            &&& plain.len() >= head.len() + 2
            &&& plain.take(head.len() as int) == head
            &&& plain.skip(head.len() as int).take(2) == "\n\n"@
            &&& (u.is_blue_verified || u.is_verified) ==> profile_text(u) == head + " \u{2713}"@
                + plain.skip(head.len() as int)
            &&& !(u.is_blue_verified || u.is_verified) ==> profile_text(u) == plain
        }),
{
    let head = "# "@ + u.name@ + " (@"@ + u.user_name@ + ")"@;
    let p = unverified(u);
    let plain = profile_text(p);
    let body = profile_body(u);
    assert(profile_body(p) == body);
    assert(verified_mark(false, false) =~= Seq::<char>::empty());
    assert(plain =~= head + body);
    assert(plain.skip(head.len() as int) =~= body);
    assert(plain.take(head.len() as int) =~= head);
    reveal_strlit("\n\n");
    assert(body.take(2) =~= "\n\n"@);
    if u.is_blue_verified || u.is_verified {
        assert(profile_text(u) =~= head + " \u{2713}"@ + body);
    } else {
        assert(p == u);
    }
}

/// In a user list, an entry carries the check mark after the handle exactly
/// when the user is blue-verified or verified: the entry starts
/// `i. **name** (@handle)`; for such a user ` ✓` follows, and after it comes
/// the entry of the same user unverified, from where that goes straight on
/// to the dash before the follower count.
pub proof fn lemma_user_entry_mark(u: User, i: nat)
    ensures
        ({
            let head = decimal(i) + ". **"@ + u.name@ + "** (@"@ + u.user_name@ + ")"@;
            let plain = user_entry(unverified(u), i);
            &&& plain.len() >= head.len() + 3
            &&& plain.take(head.len() as int) == head
            &&& plain.skip(head.len() as int).take(3) == " \u{2014} "@
            &&& (u.is_blue_verified || u.is_verified) ==> user_entry(u, i) == head + " \u{2713}"@
                + plain.skip(head.len() as int)
            &&& !(u.is_blue_verified || u.is_verified) ==> user_entry(u, i) == plain
        }),
{
    let head = decimal(i) + ". **"@ + u.name@ + "** (@"@ + u.user_name@ + ")"@;
    let p = unverified(u);
    let plain = user_entry(p, i);
    let rest = plain.skip(head.len() as int);
    assert(verified_mark(false, false) =~= Seq::<char>::empty());
    assert(plain =~= head + rest);
    assert(plain.take(head.len() as int) =~= head);
    reveal_strlit(" \u{2014} ");
    assert(rest.take(3) =~= " \u{2014} "@);
    if u.is_blue_verified || u.is_verified {
        assert(user_entry(u, i) =~= head + " \u{2713}"@ + rest);
    } else {
        assert(p == u);
    }
}

/// Whether a figure, its label and then its count with thousands
/// separators, stands in `line` before a ` | ` or before the line's end.
pub open spec fn figure_shown(line: Seq<char>, label: Seq<char>, count: u64) -> bool {
    occurs_in(label + grouped_decimal(count as nat) + " | "@, line) || occurs_in(
        label + grouped_decimal(count as nat) + "\n"@,
        line,
    )
}

/// Whether two figures stand side by side in `line`, the first before the
/// second with ` | ` between them.
pub open spec fn figures_adjacent(line: Seq<char>, first: Seq<char>, first_count: u64, second: Seq<char>, second_count: u64) -> bool {
    occurs_in(
        (first + grouped_decimal(first_count as nat)) + " | "@ + (second + grouped_decimal(
            second_count as nat,
        )),
        line,
    )
}

proof fn lemma_label_count(mark: char, c: char)
    requires
        c != ' ',
    ensures
        char_count(seq![mark, ' '], c) == if mark == c {
            1nat
        } else {
            0nat
        },
{
    let l = seq![mark, ' '];
    let m = seq![mark];
    assert(l.drop_last() =~= m);
    assert(m.drop_last() =~= Seq::<char>::empty());
    assert(char_count(Seq::<char>::empty(), c) == 0);
    assert(char_count(m, c) == char_count(m.drop_last(), c) + if m.last() == c { 1nat } else { 0nat });
    assert(char_count(l, c) == char_count(l.drop_last(), c) + if l.last() == c { 1nat } else { 0nat });
}

proof fn lemma_metric_part_count(label: Seq<char>, count: u64, c: char)
    requires
        c as u32 >= 128,
    ensures
        parts_char_count(metric_part(label, count), c) == if count > 0 {
            char_count(label, c)
        } else {
            0
        },
{
    let p = metric_part(label, count);
    if count > 0 {
        assert(p.drop_last() =~= Seq::<Seq<char>>::empty());
        assert(parts_char_count(Seq::<Seq<char>>::empty(), c) == 0);
        lemma_char_count_concat(label, grouped_decimal(count as nat), c);
        lemma_grouped_decimal_count(count as nat, c);
    }
}

proof fn lemma_metric_mark_count(t: Tweet, c: char)
    requires
        c as u32 >= 128,
    ensures
        char_count(metrics_line(t), c) == (if t.like_count > 0 && c == '\u{2665}' {
            1nat
        } else {
            0nat
        }) + (if t.retweet_count > 0 && c == '\u{21bb}' {
            1nat
        } else {
            0nat
        }) + (if t.reply_count > 0 && c == '\u{21a9}' {
            1nat
        } else {
            0nat
        }) + (if t.view_count > 0 && c == '\u{1f441}' {
            1nat
        } else {
            0nat
        }),
{
    let l1 = "\u{2665} "@;
    let l2 = "\u{21bb} "@;
    let l3 = "\u{21a9} "@;
    let l4 = "\u{1f441} "@;
    reveal_strlit("\u{2665} ");
    reveal_strlit("\u{21bb} ");
    reveal_strlit("\u{21a9} ");
    reveal_strlit("\u{1f441} ");
    reveal_strlit(" | ");
    reveal_strlit("\n");
    assert(l1 =~= seq!['\u{2665}', ' ']);
    assert(l2 =~= seq!['\u{21bb}', ' ']);
    assert(l3 =~= seq!['\u{21a9}', ' ']);
    assert(l4 =~= seq!['\u{1f441}', ' ']);
    assert(' ' as u32 == 32);
    lemma_label_count('\u{2665}', c);
    lemma_label_count('\u{21bb}', c);
    lemma_label_count('\u{21a9}', c);
    lemma_label_count('\u{1f441}', c);
    let m1 = metric_part(l1, t.like_count);
    let m2 = metric_part(l2, t.retweet_count);
    let m3 = metric_part(l3, t.reply_count);
    let m4 = metric_part(l4, t.view_count);
    lemma_metric_part_count(l1, t.like_count, c);
    lemma_metric_part_count(l2, t.retweet_count, c);
    lemma_metric_part_count(l3, t.reply_count, c);
    lemma_metric_part_count(l4, t.view_count, c);
    lemma_parts_char_count_concat(m1, m2, c);
    lemma_parts_char_count_concat(m1 + m2, m3, c);
    lemma_parts_char_count_concat(m1 + m2 + m3, m4, c);
    let parts = metric_parts(t);
    assert(parts == m1 + m2 + m3 + m4);
    let sep = " | "@;
    let s1 = seq![' '];
    let s2 = seq![' ', '|'];
    assert(sep =~= seq![' ', '|', ' ']);
    assert(sep.drop_last() =~= s2);
    assert(s2.drop_last() =~= s1);
    assert(s1.drop_last() =~= Seq::<char>::empty());
    assert(char_count(Seq::<char>::empty(), c) == 0);
    assert('|' as u32 == 124);
    assert(char_count(s1, c) == char_count(s1.drop_last(), c) + if s1.last() == c { 1nat } else { 0nat });
    assert(char_count(s2, c) == char_count(s2.drop_last(), c) + if s2.last() == c { 1nat } else { 0nat });
    assert(char_count(sep, c) == char_count(sep.drop_last(), c) + if sep.last() == c { 1nat } else { 0nat });
    assert(char_count(sep, c) == 0);
    lemma_join_char_count(parts, sep, c);
    if parts.len() > 0 {
        let nl = "\n"@;
        assert(nl =~= seq!['\n']);
        assert(nl.drop_last() =~= Seq::<char>::empty());
        assert('\n' as u32 == 10);
        assert(char_count(nl, c) == char_count(nl.drop_last(), c) + if nl.last() == c { 1nat } else { 0nat });
        assert(char_count(nl, c) == 0);
        lemma_char_count_concat(join(parts, sep), nl, c);
    }
}

/// The line of engagement figures shows each figure exactly when its own
/// count is positive, whatever the other counts are: the like (♥), retweet
/// (↻), reply (↩) and view (👁) marks each occur once in the line when
/// their count is positive and not at all when it is zero; a shown figure
/// stands with its count, thousands-separated, before a ` | ` or the line's
/// end; the shown figures come in the order likes, retweets, replies,
/// views, each next to the next one shown; the line is absent exactly when
/// all four counts are zero; and a tweet with a single positive count has
/// that figure alone on its line.
pub proof fn lemma_metric_figures(t: Tweet)
    ensures
        ({
            let line = metrics_line(t);
            &&& (line.len() == 0) <==> (t.like_count == 0 && t.retweet_count == 0 && t.reply_count
                == 0 && t.view_count == 0)
            &&& char_count(line, '\u{2665}') == if t.like_count > 0 { 1nat } else { 0nat }
            &&& char_count(line, '\u{21bb}') == if t.retweet_count > 0 { 1nat } else { 0nat }
            &&& char_count(line, '\u{21a9}') == if t.reply_count > 0 { 1nat } else { 0nat }
            &&& char_count(line, '\u{1f441}') == if t.view_count > 0 { 1nat } else { 0nat }
            &&& t.like_count > 0 ==> figure_shown(line, "\u{2665} "@, t.like_count)
            &&& t.retweet_count > 0 ==> figure_shown(line, "\u{21bb} "@, t.retweet_count)
            &&& t.reply_count > 0 ==> figure_shown(line, "\u{21a9} "@, t.reply_count)
            &&& t.view_count > 0 ==> figure_shown(line, "\u{1f441} "@, t.view_count)
            &&& t.like_count > 0 && t.retweet_count > 0 ==> figures_adjacent(line, "\u{2665} "@, t.like_count, "\u{21bb} "@, t.retweet_count)
            &&& t.like_count > 0 && t.retweet_count == 0 && t.reply_count > 0 ==> figures_adjacent(line, "\u{2665} "@, t.like_count, "\u{21a9} "@, t.reply_count)
            &&& t.like_count > 0 && t.retweet_count == 0 && t.reply_count == 0 && t.view_count > 0 ==> figures_adjacent(line, "\u{2665} "@, t.like_count, "\u{1f441} "@, t.view_count)
            &&& t.retweet_count > 0 && t.reply_count > 0 ==> figures_adjacent(line, "\u{21bb} "@, t.retweet_count, "\u{21a9} "@, t.reply_count)
            &&& t.retweet_count > 0 && t.reply_count == 0 && t.view_count > 0 ==> figures_adjacent(line, "\u{21bb} "@, t.retweet_count, "\u{1f441} "@, t.view_count)
            &&& t.reply_count > 0 && t.view_count > 0 ==> figures_adjacent(line, "\u{21a9} "@, t.reply_count, "\u{1f441} "@, t.view_count)
            &&& t.like_count > 0 && t.retweet_count == 0 && t.reply_count == 0 && t.view_count == 0
                ==> line == "\u{2665} "@ + grouped_decimal(t.like_count as nat) + "\n"@
            &&& t.like_count == 0 && t.retweet_count > 0 && t.reply_count == 0 && t.view_count == 0
                ==> line == "\u{21bb} "@ + grouped_decimal(t.retweet_count as nat) + "\n"@
            &&& t.like_count == 0 && t.retweet_count == 0 && t.reply_count > 0 && t.view_count == 0
                ==> line == "\u{21a9} "@ + grouped_decimal(t.reply_count as nat) + "\n"@
            &&& t.like_count == 0 && t.retweet_count == 0 && t.reply_count == 0 && t.view_count > 0
                ==> line == "\u{1f441} "@ + grouped_decimal(t.view_count as nat) + "\n"@
        }),
{
    assert('\u{2665}' as u32 == 0x2665);
    assert('\u{21bb}' as u32 == 0x21bb);
    assert('\u{21a9}' as u32 == 0x21a9);
    assert('\u{1f441}' as u32 == 0x1f441);
    lemma_metric_mark_count(t, '\u{2665}');
    lemma_metric_mark_count(t, '\u{21bb}');
    lemma_metric_mark_count(t, '\u{21a9}');
    lemma_metric_mark_count(t, '\u{1f441}');
    let l1 = "\u{2665} "@;
    let l2 = "\u{21bb} "@;
    let l3 = "\u{21a9} "@;
    let l4 = "\u{1f441} "@;
    let m1 = metric_part(l1, t.like_count);
    let m2 = metric_part(l2, t.retweet_count);
    let m3 = metric_part(l3, t.reply_count);
    let m4 = metric_part(l4, t.view_count);
    let parts = metric_parts(t);
    let sep = " | "@;
    let nl = "\n"@;
    assert(parts == m1 + m2 + m3 + m4);
    if parts.len() > 0 {
        assert(metrics_line(t) == join(parts, sep) + nl);
        assert(metrics_line(t).len() > 0) by {
            reveal_strlit("\n");
        }
    }
    if t.like_count > 0 {
        lemma_join_occurs(parts, sep, nl, 0);
        assert(parts[0] == l1 + grouped_decimal(t.like_count as nat));
    }
    if t.retweet_count > 0 {
        let k = m1.len() as int;
        lemma_join_occurs(parts, sep, nl, k);
        assert(parts[k] == l2 + grouped_decimal(t.retweet_count as nat));
    }
    if t.reply_count > 0 {
        let k = (m1.len() + m2.len()) as int;
        lemma_join_occurs(parts, sep, nl, k);
        assert(parts[k] == l3 + grouped_decimal(t.reply_count as nat));
    }
    if t.view_count > 0 {
        let k = (m1.len() + m2.len() + m3.len()) as int;
        lemma_join_occurs(parts, sep, nl, k);
        assert(parts[k] == l4 + grouped_decimal(t.view_count as nat));
    }
    if parts.len() == 1 {
        assert(join(parts, sep) == parts[0]);
    }
    let k2 = m1.len() as int;
    let k3 = (m1.len() + m2.len()) as int;
    let k4 = (m1.len() + m2.len() + m3.len()) as int;
    let f1 = l1 + grouped_decimal(t.like_count as nat);
    let f2 = l2 + grouped_decimal(t.retweet_count as nat);
    let f3 = l3 + grouped_decimal(t.reply_count as nat);
    let f4 = l4 + grouped_decimal(t.view_count as nat);
    if t.like_count > 0 && (t.retweet_count > 0 || t.reply_count > 0 || t.view_count > 0) {
        lemma_join_adjacent(parts, sep, nl, 0);
        assert(parts[0] == f1);
        if t.retweet_count > 0 {
            assert(parts[1] == f2);
        } else if t.reply_count > 0 {
            assert(parts[1] == f3);
        } else {
            assert(parts[1] == f4);
        }
    }
    if t.retweet_count > 0 && (t.reply_count > 0 || t.view_count > 0) {
        lemma_join_adjacent(parts, sep, nl, k2);
        assert(parts[k2] == f2);
        if t.reply_count > 0 {
            assert(parts[k2 + 1] == f3);
        } else {
            assert(parts[k2 + 1] == f4);
        }
    }
    if t.reply_count > 0 && t.view_count > 0 {
        lemma_join_adjacent(parts, sep, nl, k3);
        assert(parts[k3] == l3 + grouped_decimal(t.reply_count as nat));
        assert(parts[k3 + 1] == l4 + grouped_decimal(t.view_count as nat));
    }
}

/// Under a listed user, a missing or empty description shows no line; one
/// of at most 120 bytes is shown whole; a longer one is shown as its first
/// 120 bytes (a prefix of it that fills them exactly) followed by `...`.
pub proof fn lemma_description_cut(d: Option<String>)
    requires
        description_cut_ok(d),
    ensures
        match d {
            None => description_line(d) == Seq::<char>::empty(),
            Some(s) => {
                &&& s@.len() == 0 ==> description_line(d) == Seq::<char>::empty()
                &&& s@.len() > 0 && utf8_len(s@) <= 120 ==> description_line(d) == "   "@ + s@ + "\n"@
                &&& utf8_len(s@) > 120 ==> exists|k: int|
                    0 < k < s@.len() && utf8_len(#[trigger] s@.take(k)) == 120 && description_line(d)
                        == "   "@ + s@.take(k) + "..."@ + "\n"@
            },
        },
{
    if let Some(s) = d {
        let t = s@;
        if utf8_len(t) > 120 {
            lemma_utf8_prefix_fits(t, 120);
            let p = utf8_prefix(t, 120);
            let k = p.len() as int;
            assert(p == t.take(k));
            if k == 0 {
                assert(t.take(0) =~= Seq::<char>::empty());
                assert(encode_utf8(Seq::<char>::empty()) =~= Seq::<u8>::empty());
            }
            if k == t.len() {
                assert(t.take(k) =~= t);
            }
            assert(0 < k < t.len() && utf8_len(t.take(k)) == 120);
        }
    }
}

/// The text of a profile around its optional lines.
proof fn lemma_profile_split(u: User)
    ensures
        profile_text(u) == ("# "@ + u.name@ + " (@"@ + u.user_name@ + ")"@ + verified_mark(
            u.is_blue_verified,
            u.is_verified,
        ) + "\n\n"@) + profile_lines(u) + profile_table(u),
{
    let a = "# "@ + u.name@ + " (@"@ + u.user_name@ + ")"@ + verified_mark(u.is_blue_verified, u.is_verified);
    assert(profile_text(u) == a + profile_body(u));
    assert(a + profile_body(u) =~= (a + "\n\n"@) + profile_lines(u) + profile_table(u));
}

proof fn lemma_profile_table_end(u: User)
    ensures
        ("| Followers | Following | Tweets |\n|---|---|---|\n| "@ + grouped_decimal(
            u.followers_count as nat,
        ) + " | "@ + grouped_decimal(u.following_count as nat) + " | "@ + grouped_decimal(
            u.tweets_count as nat,
        ) + " |\n\n"@).is_suffix_of(profile_text(u)),
{
    lemma_profile_split(u);
    let a = "# "@ + u.name@ + " (@"@ + u.user_name@ + ")"@ + verified_mark(u.is_blue_verified, u.is_verified)
        + "\n\n"@;
    let p = profile_text(u);
    let head = "| Followers | Following | Tweets |\n|---|---|---|\n| "@ + grouped_decimal(
        u.followers_count as nat,
    ) + " | "@ + grouped_decimal(u.following_count as nat) + " | "@ + grouped_decimal(
        u.tweets_count as nat,
    );
    let table = head + " |\n\n"@;
    reveal_strlit(" |\n");
    reveal_strlit("\n");
    reveal_strlit(" |\n\n");
    assert(" |\n"@ + "\n"@ =~= " |\n\n"@);
    assert(profile_table(u) =~= "\n"@ + table);
    let front = a + profile_lines(u) + "\n"@;
    assert(p =~= front + table);
    assert(p.subrange(front.len() as int, p.len() as int) =~= table);
}

proof fn lemma_profile_lines_shown(u: User)
    ensures
        ({
            let p = profile_text(u);
            &&& (u.description matches Some(d) && d@.len() > 0) ==> occurs_in(
                u.description->0@ + "\n\n"@,
                p,
            )
            &&& (u.location matches Some(l) && l@.len() > 0) ==> occurs_in(
                "**Location:** "@ + u.location->0@ + "\n"@,
                p,
            )
            &&& (u.url matches Some(w) && w@.len() > 0) ==> occurs_in(
                "**URL:** "@ + u.url->0@ + "\n"@,
                p,
            )
            &&& u.created_at is Some ==> occurs_in("**Joined:** "@ + u.created_at->0@ + "\n"@, p)
        }),
{
    lemma_profile_split(u);
    let a = "# "@ + u.name@ + " (@"@ + u.user_name@ + ")"@ + verified_mark(u.is_blue_verified, u.is_verified)
        + "\n\n"@;
    let tb = profile_table(u);
    let d = line_if_nonempty(u.description, Seq::empty(), "\n\n"@);
    let l = line_if_nonempty(u.location, "**Location:** "@, "\n"@);
    let w = line_if_nonempty(u.url, "**URL:** "@, "\n"@);
    let j = match u.created_at {
        Some(c) => "**Joined:** "@ + c@ + "\n"@,
        None => Seq::empty(),
    };
    let ls = profile_lines(u);
    assert(ls == d + l + w + j);
    let e = Seq::<char>::empty();
    if let Some(x) = u.description {
        assert(e + x@ + "\n\n"@ =~= x@ + "\n\n"@);
    }
    lemma_occurs_middle(e, d, l + w + j);
    assert(e + d + (l + w + j) =~= ls);
    lemma_occurs_middle(d, l, w + j);
    assert(d + l + (w + j) =~= ls);
    lemma_occurs_middle(d + l, w, j);
    assert(d + l + w + j =~= ls);
    lemma_occurs_middle(d + l + w, j, e);
    assert(d + l + w + j + e =~= ls);
    lemma_occurs_within(d, a, ls, tb);
    lemma_occurs_within(l, a, ls, tb);
    lemma_occurs_within(w, a, ls, tb);
    lemma_occurs_within(j, a, ls, tb);
}

/// A profile shows each of its optional lines when there is something to
/// show: the description when it is not empty, then a blank line; the
/// location and the URL each on a labelled line when not empty; the join
/// date on a labelled line when there is one; and it ends with the table of
/// follower, following and tweet counts, in that order, each with
/// thousands separators, then a blank line.
#[verifier::rlimit(40)]
pub proof fn lemma_profile_parts(u: User)
    ensures
        ({
            let p = profile_text(u);
            let table = "| Followers | Following | Tweets |\n|---|---|---|\n| "@ + grouped_decimal(
                u.followers_count as nat,
            ) + " | "@ + grouped_decimal(u.following_count as nat) + " | "@ + grouped_decimal(
                u.tweets_count as nat,
            ) + " |\n\n"@;
            &&& table.is_suffix_of(p)
            &&& (u.description matches Some(d) && d@.len() > 0) ==> occurs_in(
                u.description->0@ + "\n\n"@,
                p,
            )
            &&& (u.location matches Some(l) && l@.len() > 0) ==> occurs_in(
                "**Location:** "@ + u.location->0@ + "\n"@,
                p,
            )
            &&& (u.url matches Some(w) && w@.len() > 0) ==> occurs_in(
                "**URL:** "@ + u.url->0@ + "\n"@,
                p,
            )
            &&& u.created_at is Some ==> occurs_in("**Joined:** "@ + u.created_at->0@ + "\n"@, p)
        }),
{
    lemma_profile_table_end(u);
    lemma_profile_lines_shown(u);
}

proof fn lemma_tweet_block_split(t: Tweet, index: Option<usize>)
    ensures
        tweet_text(t, index) == tweet_heading(t, index) + text_lines(t, indent(index is Some))
            + link_lines(t, indent(index is Some)) + "\n"@,
        tweet_heading(t, index).is_prefix_of(tweet_text(t, index)),
{
    let b = tweet_text(t, index);
    let h = tweet_heading(t, index);
    assert(b.subrange(0, h.len() as int) =~= h);
}

proof fn lemma_tweet_text_shown(t: Tweet, index: Option<usize>)
    ensures
        occurs_in(t.text@ + "\n"@, tweet_text(t, index)),
{
    lemma_tweet_block_split(t, index);
    let ind = indent(index is Some);
    let tl = text_lines(t, ind);
    let nl = "\n"@;
    let mid = if metric_parts(t).len() > 0 { ind } else { Seq::<char>::empty() };
    assert(tl =~= ind + (t.text@ + nl) + (mid + metrics_line(t)));
    lemma_occurs_middle(ind, t.text@ + nl, mid + metrics_line(t));
    lemma_occurs_within(t.text@ + nl, tweet_heading(t, index), tl, link_lines(t, ind) + nl);
    assert(tweet_text(t, index) =~= tweet_heading(t, index) + tl + (link_lines(t, ind) + nl));
}

proof fn lemma_tweet_link_shown(t: Tweet, index: Option<usize>)
    ensures
        occurs_in(link_line(t), tweet_text(t, index)),
        occurs_in(date_line(t), tweet_text(t, index)),
{
    lemma_tweet_block_split(t, index);
    let ind = indent(index is Some);
    let h = tweet_heading(t, index);
    let tl = text_lines(t, ind);
    let kl = link_lines(t, ind);
    let nl = "\n"@;
    let ll = link_line(t);
    let dind = if t.created_at is Some { ind } else { Seq::<char>::empty() };
    assert(kl =~= ind + ll + (dind + date_line(t)));
    lemma_occurs_middle(ind, ll, dind + date_line(t));
    lemma_occurs_within(ll, h + tl, kl, nl);
    assert(kl =~= (ind + ll + dind) + date_line(t) + Seq::<char>::empty());
    lemma_occurs_middle(ind + ll + dind, date_line(t), Seq::<char>::empty());
    lemma_occurs_within(date_line(t), h + tl, kl, nl);
}

proof fn lemma_tweet_block_end(t: Tweet, index: Option<usize>)
    ensures
        "\n\n"@.is_suffix_of(tweet_text(t, index)),
{
    lemma_tweet_block_split(t, index);
    let b = tweet_text(t, index);
    let ind = indent(index is Some);
    let kl = link_lines(t, ind);
    let ll = link_line(t);
    reveal_strlit("\n");
    reveal_strlit("\n\n");
    if t.created_at is Some {
        reveal_strlit("*\n");
        assert(date_line(t).last() == '\n');
        assert(kl.last() == '\n');
    } else {
        assert(ll.last() == '\n');
        assert(kl =~= ind + ll);
        assert(kl.last() == '\n');
    }
    assert(b.subrange(b.len() - 2, b.len() as int) =~= "\n\n"@);
}

/// A tweet's block starts with its number (when numbered) and its author's
/// name and handle (`Unknown` and `unknown` without an author); it shows the
/// tweet's text on a line; its link is the tweet's URL, or one made from
/// the handle and the id on x.com when it has none; its date, when it has
/// one, stands in italics; and the block ends with a blank line.
pub proof fn lemma_tweet_parts(t: Tweet, index: Option<usize>)
    ensures
        ({
            let b = tweet_text(t, index);
            let name = match t.author {
                Some(a) => a.name@,
                None => "Unknown"@,
            };
            let handle = match t.author {
                Some(a) => a.user_name@,
                None => "unknown"@,
            };
            let number = match index {
                Some(i) => decimal(i as nat) + ". "@,
                None => Seq::<char>::empty(),
            };
            &&& (number + "**"@ + name + "** (@"@ + handle + ")\n"@).is_prefix_of(b)
            &&& occurs_in(t.text@ + "\n"@, b)
            &&& t.url is Some ==> occurs_in(t.url->0@ + "\n"@, b)
            &&& t.url is None ==> occurs_in(
                "https://x.com/"@ + handle + "/status/"@ + t.id@ + "\n"@,
                b,
            )
            &&& t.created_at is Some ==> occurs_in("*"@ + t.created_at->0@ + "*\n"@, b)
            &&& "\n\n"@.is_suffix_of(b)
        }),
{
    lemma_tweet_block_split(t, index);
    lemma_tweet_text_shown(t, index);
    lemma_tweet_link_shown(t, index);
    lemma_tweet_block_end(t, index);
}

proof fn lemma_numbered_users_occurs(us: Seq<User>, k: int)
    requires
        0 <= k < us.len(),
    ensures
        occurs_in(user_entry(us[k], (k + 1) as nat), numbered_users(us)),
    decreases us.len(),
{
    let dl = us.drop_last();
    assert(numbered_users(us) == numbered_users(dl) + user_entry(us.last(), us.len()));
    if k + 1 == us.len() {
        lemma_occurs_middle(numbered_users(dl), user_entry(us[k], (k + 1) as nat), Seq::<char>::empty());
        assert(numbered_users(dl) + user_entry(us[k], (k + 1) as nat) + Seq::<char>::empty() =~= numbered_users(us));
    } else {
        lemma_numbered_users_occurs(dl, k);
        assert(dl[k] == us[k]);
        lemma_occurs_extend(user_entry(us[k], (k + 1) as nat), numbered_users(dl), user_entry(us.last(), us.len()));
    }
}

/// A user list starts with its label and the number of users shown, and
/// lists every user under the number of its place from 1, with name and
/// handle.
pub proof fn lemma_user_list_parts(us: Seq<User>, label: Seq<char>)
    ensures
        ("## "@ + label + " ("@ + decimal(us.len()) + " shown)\n\n"@).is_prefix_of(user_list_text(us, label)),
        forall|k: int|
            0 <= k < us.len() ==> occurs_in(
                decimal((k + 1) as nat) + ". **"@ + (#[trigger] us[k]).name@ + "** (@"@ + us[k].user_name@
                    + ")"@,
                user_list_text(us, label),
            ),
{
    let head = "## "@ + label + " ("@ + decimal(us.len()) + " shown)\n\n"@;
    let text = user_list_text(us, label);
    assert(text == head + numbered_users(us) + "\n"@);
    assert(text.subrange(0, head.len() as int) =~= head);
    assert forall|k: int|
        0 <= k < us.len() implies occurs_in(
        decimal((k + 1) as nat) + ". **"@ + (#[trigger] us[k]).name@ + "** (@"@ + us[k].user_name@ + ")"@,
        user_list_text(us, label),
    ) by {
        let u = us[k];
        let e = user_entry(u, (k + 1) as nat);
        let x = decimal((k + 1) as nat) + ". **"@ + u.name@ + "** (@"@ + u.user_name@ + ")"@;
        lemma_numbered_users_occurs(us, k);
        lemma_occurs_within(e, head, numbered_users(us), "\n"@);
        assert(e.subrange(0, x.len() as int) =~= x);
        lemma_occurs_prefix(x, e, text);
    }
}

} // verus!
