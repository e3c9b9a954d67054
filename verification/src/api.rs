//! The decisions of the service client: request spacing, retries, response
//! checks, request parameters, paging through results and reading trends.
use vstd::prelude::*;
use crate::error::{user_not_found, TwitterApiError};
use crate::model::{ApiResponse, Trend, User, UserList};
use crate::text::{decimal, decimal_string, join, lemma_join_push};

verus! {

pub const BASE_URL: &'static str = "https://api.twitterapi.io";

pub const PATH_ADVANCED_SEARCH: &'static str = "/twitter/tweet/advanced_search";

pub const PATH_TWEETS: &'static str = "/twitter/tweets";

pub const PATH_USER_INFO: &'static str = "/twitter/user/info";

pub const PATH_FOLLOWERS: &'static str = "/twitter/user/followers";

pub const PATH_FOLLOWINGS: &'static str = "/twitter/user/followings";

pub const PATH_TRENDS: &'static str = "/twitter/trends";

/// The full URL of an endpoint path.
pub fn request_url(path: &str) -> (res: String)
    ensures
        res@ == BASE_URL@ + path@,
{
    let mut out = String::new();
    out.push_str(BASE_URL);
    out.push_str(path);
    out
}

// ---------------------------------------------------------------------------
// Request spacing
// ---------------------------------------------------------------------------

/// The least time between two requests: 200 ms, in nanoseconds.
pub const MIN_REQUEST_INTERVAL_NANOS: u64 = 200_000_000;

/// The spacing rule.  Times are nanoseconds on a monotonic clock.  Given the
/// time recorded for the last request (if any) and the current time: the
/// time to record for this request, and how long to wait before sending it
/// (`None` for no wait).  A request earlier than the interval after the last
/// recorded one waits until that moment and is recorded there; a later one
/// goes at once and is recorded now.
pub open spec fn spacing(last: Option<u64>, now: u64) -> (int, Option<int>) {
    match last {
        None => (now as int, None),
        Some(t) => {
            let next: int = t + MIN_REQUEST_INTERVAL_NANOS;
            if now < next {
                (next, Some(next - now))
            } else {
                (now as int, None)
            }
        },
    }
}

/// Applies the spacing rule.  `Instant + Duration` panics on overflow, so
/// the recorded time plus the interval must fit in a `u64` where it is
/// computed.
pub fn rate_limit_step(last: Option<u64>, now: u64) -> (res: (u64, Option<u64>))
    requires
        last matches Some(t) ==> (now >= t + MIN_REQUEST_INTERVAL_NANOS
            || t + MIN_REQUEST_INTERVAL_NANOS <= u64::MAX),
    ensures
        res.0 as int == spacing(last, now).0,
        res.1 matches Some(w) ==> spacing(last, now).1 == Some(w as int),
        res.1 is None ==> spacing(last, now).1 is None,
{
    match last {
        None => (now, None),
        Some(t) => {
            if now >= t && now - t >= MIN_REQUEST_INTERVAL_NANOS {
                (now, None)
            } else {
                let next = t + MIN_REQUEST_INTERVAL_NANOS;
                (next, Some(next - now))
            }
        },
    }
}

/// A request is sent when its wait is over, and that is the time recorded
/// for it; so each request goes out at least the interval after the one
/// recorded before it, however the calls overlap, and never before it is
/// asked for.
pub proof fn lemma_requests_are_spaced(last: Option<u64>, now: u64)
    ensures
        spacing(last, now).0 == now + match spacing(last, now).1 {
            Some(w) => w,
            None => 0,
        },
        last matches Some(t) ==> spacing(last, now).0 >= t + MIN_REQUEST_INTERVAL_NANOS,
        spacing(last, now).0 >= now,
        spacing(last, now).1 matches Some(w) ==> w > 0,
{
}

/// A call that comes the interval or more after the last recorded request,
/// or the first call, does not wait.
pub proof fn lemma_no_wait_when_spaced(last: Option<u64>, now: u64)
    requires
        last matches Some(t) ==> now >= t + MIN_REQUEST_INTERVAL_NANOS,
    ensures
        spacing(last, now) == (now as int, None::<int>),
{
}

// ---------------------------------------------------------------------------
// Retries
// ---------------------------------------------------------------------------

/// Retries allowed after a 429 response.
pub const MAX_RATE_LIMIT_RETRIES: u32 = 3;

/// Retries allowed after a server error.
pub const MAX_SERVER_ERROR_RETRIES: u32 = 1;

/// What to do with a response.
#[derive(Debug, Clone, Copy, PartialEq, Eq)]
pub enum RetryAction {
    /// Success: the body is the result.
    ReadBody,
    /// 401 or 403: fail with an authentication error.
    AuthFailure,
    /// Wait this many seconds and send the request again.
    RetryAfter { secs: u64 },
    /// 429 with no retries left: fail as rate limited.
    RateLimited,
    /// Any other status: fail with the status and the body.
    ApiFailure,
}

/// The retries used so far for one request.
#[derive(Debug, Clone, Copy, PartialEq, Eq)]
pub struct RetryState {
    pub rate_limit_retries: u32,
    pub server_error_retries: u32,
}

pub open spec fn is_success_status(status: u16) -> bool {
    200 <= status <= 299
}

pub open spec fn is_server_error_status(status: u16) -> bool {
    500 <= status <= 599
}

/// The retry rule: the next state and action for a response with `status`.
pub open spec fn retry_step(s: RetryState, status: u16) -> (RetryState, RetryAction) {
    if is_success_status(status) {
        (s, RetryAction::ReadBody)
    } else if status == 401 || status == 403 {
        (s, RetryAction::AuthFailure)
    } else if status == 429 && s.rate_limit_retries < MAX_RATE_LIMIT_RETRIES {
        (
            RetryState { rate_limit_retries: (s.rate_limit_retries + 1) as u32, ..s },
            RetryAction::RetryAfter { secs: 1 },
        )
    } else if is_server_error_status(status) && s.server_error_retries < MAX_SERVER_ERROR_RETRIES {
        (
            RetryState { server_error_retries: (s.server_error_retries + 1) as u32, ..s },
            RetryAction::RetryAfter { secs: 2 },
        )
    } else if status == 429 {
        (s, RetryAction::RateLimited)
    } else {
        (s, RetryAction::ApiFailure)
    }
}

impl RetryState {
    /// No retries used yet.
    pub fn new() -> (res: Self)
        ensures
            res.rate_limit_retries == 0,
            res.server_error_retries == 0,
    {
        RetryState { rate_limit_retries: 0, server_error_retries: 0 }
    }

    /// Within the allowed numbers of retries.
    pub open spec fn within_budget(&self) -> bool {
        self.rate_limit_retries <= MAX_RATE_LIMIT_RETRIES && self.server_error_retries
            <= MAX_SERVER_ERROR_RETRIES
    }

    /// The number of retries still allowed.
    pub open spec fn budget(&self) -> int {
        (MAX_RATE_LIMIT_RETRIES - self.rate_limit_retries) + (MAX_SERVER_ERROR_RETRIES
            - self.server_error_retries)
    }

    /// Decides what to do with a response of status `status`, counting the
    /// retry when there is one.
    pub fn on_status(&mut self, status: u16) -> (action: RetryAction)
        ensures
            (*final(self), action) == retry_step(*old(self), status),
    {
        if 200 <= status && status <= 299 {
            RetryAction::ReadBody
        } else if status == 401 || status == 403 {
            RetryAction::AuthFailure
        } else if status == 429 && self.rate_limit_retries < MAX_RATE_LIMIT_RETRIES {
            self.rate_limit_retries = self.rate_limit_retries + 1;
            RetryAction::RetryAfter { secs: 1 }
        } else if 500 <= status && status <= 599 && self.server_error_retries
            < MAX_SERVER_ERROR_RETRIES {
            self.server_error_retries = self.server_error_retries + 1;
            RetryAction::RetryAfter { secs: 2 }
        } else if status == 429 {
            RetryAction::RateLimited
        } else {
            RetryAction::ApiFailure
        }
    }
}

/// What a response leads to, by its status: any 2xx reads the body; 401 and
/// 403 fail authentication; 429 is retried after 1 s while fewer than 3
/// rate-limit retries are used, and then fails as rate limited; every status
/// from 500 through 599 is retried after 2 s while the one server-error
/// retry is unused, and then fails; any other status fails at once.  A
/// retry counts one of its own kind and leaves the other count alone;
/// nothing else changes the counts.
pub proof fn lemma_retry_rule(s: RetryState, status: u16)
    ensures
        ({
            let (next, action) = retry_step(s, status);
            &&& 200 <= status <= 299 ==> action == RetryAction::ReadBody && next == s
            &&& (status == 401 || status == 403) ==> action == RetryAction::AuthFailure && next == s
            &&& status == 429 && s.rate_limit_retries < 3 ==> action == RetryAction::RetryAfter {
                secs: 1,
            } && next.rate_limit_retries == s.rate_limit_retries + 1 && next.server_error_retries
                == s.server_error_retries
            &&& status == 429 && s.rate_limit_retries >= 3 ==> action == RetryAction::RateLimited
                && next == s
            &&& 500 <= status <= 599 && s.server_error_retries == 0 ==> action
                == RetryAction::RetryAfter { secs: 2 } && next.server_error_retries == 1
                && next.rate_limit_retries == s.rate_limit_retries
            &&& 500 <= status <= 599 && s.server_error_retries >= 1 ==> action
                == RetryAction::ApiFailure && next == s
            &&& !(200 <= status <= 299 || status == 401 || status == 403 || status == 429 || 500
                <= status <= 599) ==> action == RetryAction::ApiFailure && next == s
        }),
{
}

/// Retries never exceed their limits, and each retry uses up one of the
/// four allowed: a request is sent at most five times.
pub proof fn lemma_retries_bounded(s: RetryState, status: u16)
    requires
        s.within_budget(),
    ensures
        retry_step(s, status).0.within_budget(),
        retry_step(s, status).1 matches RetryAction::RetryAfter { .. } ==> retry_step(
            s,
            status,
        ).0.budget() == s.budget() - 1 && s.budget() >= 1,
        !(retry_step(s, status).1 matches RetryAction::RetryAfter { .. }) ==> retry_step(
            s,
            status,
        ).0 == s,
        s.budget() <= 4,
{
}

/// The number of requests one call sends when its answers have the
/// statuses `statuses`, in turn, starting from retry state `s`: a request is
/// sent, and another only after a retry action.  (A call whose answers run
/// out is counted up to there.)
pub open spec fn attempts(s: RetryState, statuses: Seq<u16>) -> nat
    decreases statuses.len(),
{
    if statuses.len() == 0 {
        0
    } else {
        let (next, action) = retry_step(s, statuses[0]);
        if action is RetryAfter {
            1 + attempts(next, statuses.drop_first())
        } else {
            1
        }
    }
}

/// The action that ends a call with those answers, if they suffice to end it.
pub open spec fn final_action(s: RetryState, statuses: Seq<u16>) -> Option<RetryAction>
    decreases statuses.len(),
{
    if statuses.len() == 0 {
        None
    } else {
        let (next, action) = retry_step(s, statuses[0]);
        if action is RetryAfter {
            final_action(next, statuses.drop_first())
        } else {
            Some(action)
        }
    }
}

proof fn lemma_attempts_within_budget(s: RetryState, statuses: Seq<u16>)
    requires
        s.within_budget(),
    ensures
        attempts(s, statuses) <= s.budget() + 1,
    decreases statuses.len(),
{
    if statuses.len() > 0 {
        lemma_retries_bounded(s, statuses[0]);
        let (next, action) = retry_step(s, statuses[0]);
        if action is RetryAfter {
            lemma_attempts_within_budget(next, statuses.drop_first());
        }
    }
}

/// Whatever the answers, one call from a fresh state sends at most five
/// requests: one, three more after 429 answers and one more after a server
/// error.
pub proof fn lemma_call_sends_at_most_five(statuses: Seq<u16>)
    ensures
        attempts(RetryState { rate_limit_retries: 0, server_error_retries: 0 }, statuses) <= 5,
{
    lemma_attempts_within_budget(RetryState { rate_limit_retries: 0, server_error_retries: 0 }, statuses);
}

/// Answered 429 every time, a call sends four requests and ends rate
/// limited.
pub proof fn lemma_call_all_rate_limited(statuses: Seq<u16>)
    requires
        statuses.len() >= 4,
        forall|i: int| 0 <= i < statuses.len() ==> statuses[i] == 429,
    ensures
        attempts(RetryState { rate_limit_retries: 0, server_error_retries: 0 }, statuses) == 4,
        final_action(RetryState { rate_limit_retries: 0, server_error_retries: 0 }, statuses)
            == Some(RetryAction::RateLimited),
{
    let s0 = RetryState { rate_limit_retries: 0, server_error_retries: 0 };
    let s1 = RetryState { rate_limit_retries: 1, server_error_retries: 0 };
    let s2 = RetryState { rate_limit_retries: 2, server_error_retries: 0 };
    let s3 = RetryState { rate_limit_retries: 3, server_error_retries: 0 };
    let t1 = statuses.drop_first();
    let t2 = t1.drop_first();
    let t3 = t2.drop_first();
    assert(statuses[0] == 429 && t1[0] == 429 && t2[0] == 429 && t3[0] == 429);
    assert(retry_step(s0, 429) == (s1, RetryAction::RetryAfter { secs: 1 }));
    assert(retry_step(s1, 429) == (s2, RetryAction::RetryAfter { secs: 1 }));
    assert(retry_step(s2, 429) == (s3, RetryAction::RetryAfter { secs: 1 }));
    assert(retry_step(s3, 429) == (s3, RetryAction::RateLimited));
    assert(attempts(s3, t3) == 1);
    assert(attempts(s2, t2) == 2);
    assert(attempts(s1, t1) == 3);
    assert(final_action(s3, t3) == Some(RetryAction::RateLimited));
    assert(final_action(s2, t2) == Some(RetryAction::RateLimited));
    assert(final_action(s1, t1) == Some(RetryAction::RateLimited));
}

/// Answered with server errors every time, a call sends two requests and
/// ends with the status failure.
pub proof fn lemma_call_all_server_errors(statuses: Seq<u16>)
    requires
        statuses.len() >= 2,
        forall|i: int| 0 <= i < statuses.len() ==> is_server_error_status(#[trigger] statuses[i]),
    ensures
        attempts(RetryState { rate_limit_retries: 0, server_error_retries: 0 }, statuses) == 2,
        final_action(RetryState { rate_limit_retries: 0, server_error_retries: 0 }, statuses)
            == Some(RetryAction::ApiFailure),
{
    let s0 = RetryState { rate_limit_retries: 0, server_error_retries: 0 };
    let s1 = RetryState { rate_limit_retries: 0, server_error_retries: 1 };
    let t1 = statuses.drop_first();
    assert(is_server_error_status(statuses[0]));
    assert(is_server_error_status(statuses[1]));
    assert(t1[0] == statuses[1]);
    assert(retry_step(s0, statuses[0]) == (s1, RetryAction::RetryAfter { secs: 2 }));
    assert(retry_step(s1, t1[0]) == (s1, RetryAction::ApiFailure));
    assert(attempts(s1, t1) == 1);
    assert(final_action(s1, t1) == Some(RetryAction::ApiFailure));
}


// ---------------------------------------------------------------------------
// Responses
// ---------------------------------------------------------------------------

/// The message of an unsuccessful envelope: its own, or `Unknown error`.
pub open spec fn failure_message(msg: Option<String>) -> Seq<char> {
    match msg {
        Some(m) => m@,
        None => "Unknown error"@,
    }
}

/// Accepts an envelope whose status is `success`; any other status is an
/// API error with the envelope's message.
pub fn check_api_response<T>(resp: ApiResponse<T>) -> (res: Result<ApiResponse<T>, TwitterApiError>)
    ensures
        resp.status@ == "success"@ ==> res == Ok::<ApiResponse<T>, TwitterApiError>(resp),
        resp.status@ != "success"@ ==> (res matches Err(TwitterApiError::Api(m)) && m@
            == failure_message(resp.msg)),
{
    let success = "success".to_owned();
    if resp.status == success {
        Ok(resp)
    } else {
        let m = match resp.msg {
            Some(m) => m,
            None => "Unknown error".to_owned(),
        };
        Err(TwitterApiError::Api(m))
    }
}

/// The user of a checked user-info envelope, or an API error naming the
/// user when it holds none.
pub fn user_from_response(resp: ApiResponse<User>, username: &str) -> (res: Result<User, TwitterApiError>)
    ensures
        resp.data matches Some(u) ==> res == Ok::<User, TwitterApiError>(u),
        resp.data is None ==> (res matches Err(TwitterApiError::Api(m)) && m@ == "User '"@
            + username@ + "' not found"@),
{
    match resp.data {
        Some(u) => Ok(u),
        None => Err(user_not_found(username)),
    }
}

// ---------------------------------------------------------------------------
// Request parameters
// ---------------------------------------------------------------------------

/// Query parameters as pairs of texts.
pub open spec fn params_view(v: Seq<(&'static str, String)>) -> Seq<(Seq<char>, Seq<char>)> {
    v.map_values(|p: (&'static str, String)| (p.0@, p.1@))
}

/// The `cursor` parameter when there is a cursor.
pub open spec fn cursor_param(cursor: Option<String>) -> Seq<(Seq<char>, Seq<char>)> {
    match cursor {
        Some(c) => seq![("cursor"@, c@)],
        None => Seq::empty(),
    }
}

fn push_param(params: &mut Vec<(&'static str, String)>, name: &'static str, value: String)
    ensures
        params_view(final(params)@) == params_view(old(params)@).push((name@, value@)),
{
    params.push((name, value));
    assert(params_view(final(params)@) =~= params_view(old(params)@).push((name@, value@)));
}

fn push_cursor_param(params: &mut Vec<(&'static str, String)>, cursor: Option<String>)
    ensures
        params_view(final(params)@) == params_view(old(params)@) + cursor_param(cursor),
{
    match cursor {
        Some(c) => {
            push_param(params, "cursor", c);
            assert(params_view(final(params)@) =~= params_view(old(params)@) + cursor_param(cursor));
        },
        None => {
            assert(params_view(final(params)@) =~= params_view(old(params)@) + cursor_param(cursor));
        },
    }
}

/// Parameters of one page of an advanced search.
pub fn search_params(query: &str, query_type: &str, limit: usize, cursor: Option<String>) -> (res: Vec<(&'static str, String)>)
    ensures
        params_view(res@) == seq![
            ("query"@, query@),
            ("queryType"@, query_type@),
            ("count"@, decimal(limit as nat)),
        ] + cursor_param(cursor),
{
    let mut params: Vec<(&'static str, String)> = Vec::new();
    push_param(&mut params, "query", query.to_owned());
    push_param(&mut params, "queryType", query_type.to_owned());
    push_param(&mut params, "count", decimal_string(limit as u64));
    push_cursor_param(&mut params, cursor);
    proof {
        assert(params_view(params@) =~= seq![
            ("query"@, query@),
            ("queryType"@, query_type@),
            ("count"@, decimal(limit as nat)),
        ] + cursor_param(cursor));
    }
    params
}

/// Parameters of one page of followers or followings.
pub fn user_list_params(username: &str, cursor: Option<String>) -> (res: Vec<(&'static str, String)>)
    ensures
        params_view(res@) == seq![("userName"@, username@)] + cursor_param(cursor),
{
    let mut params: Vec<(&'static str, String)> = Vec::new();
    push_param(&mut params, "userName", username.to_owned());
    push_cursor_param(&mut params, cursor);
    proof {
        assert(params_view(params@) =~= seq![("userName"@, username@)] + cursor_param(cursor));
    }
    params
}

/// Parameters of a user-info request.
pub fn user_info_params(username: &str) -> (res: Vec<(&'static str, String)>)
    ensures
        params_view(res@) == seq![("userName"@, username@)],
{
    let mut params: Vec<(&'static str, String)> = Vec::new();
    push_param(&mut params, "userName", username.to_owned());
    proof {
        assert(params_view(params@) =~= seq![("userName"@, username@)]);
    }
    params
}

/// Parameters of a trends request.
pub fn trends_params(woeid: u64, count: usize) -> (res: Vec<(&'static str, String)>)
    ensures
        params_view(res@) == seq![("woeid"@, decimal(woeid as nat)), ("count"@, decimal(count as nat))],
{
    let mut params: Vec<(&'static str, String)> = Vec::new();
    push_param(&mut params, "woeid", decimal_string(woeid));
    push_param(&mut params, "count", decimal_string(count as u64));
    proof {
        assert(params_view(params@) =~= seq![
            ("woeid"@, decimal(woeid as nat)),
            ("count"@, decimal(count as nat)),
        ]);
    }
    params
}

/// The texts of a sequence of strings.
pub open spec fn texts(v: Seq<String>) -> Seq<Seq<char>> {
    v.map_values(|s: String| s@)
}

/// The ids joined with commas, as the tweets endpoint takes them.
pub fn join_ids(ids: &[String]) -> (res: String)
    ensures
        res@ == join(texts(ids@), ","@),
{
    let mut out = String::new();
    let n = ids.len();
    for i in 0..n
        invariant
            n == ids@.len(),
            out@ == join(texts(ids@.take(i as int)), ","@),
    {
        if i > 0 {
            out.push_str(",");
        }
        out.push_str(ids[i].as_str());
        proof {
            let prev = texts(ids@.take(i as int));
            lemma_join_push(prev, ","@, ids@[i as int]@);
            assert(texts(ids@.take(i + 1)) =~= prev.push(ids@[i as int]@));
        }
    }
    proof {
        assert(ids@.take(n as int) =~= ids@);
        if n == 0 {
            assert(texts(ids@.take(0)) =~= Seq::<Seq<char>>::empty());
        }
    }
    out
}

/// Parameters of a request for tweets by id.
pub fn tweet_ids_params(ids: &[String]) -> (res: Vec<(&'static str, String)>)
    ensures
        params_view(res@) == seq![("tweet_ids"@, join(texts(ids@), ","@))],
{
    let mut params: Vec<(&'static str, String)> = Vec::new();
    push_param(&mut params, "tweet_ids", join_ids(ids));
    proof {
        assert(params_view(params@) =~= seq![("tweet_ids"@, join(texts(ids@), ","@))]);
    }
    params
}


// ---------------------------------------------------------------------------
// Paging
// ---------------------------------------------------------------------------

/// How a page changes the number of items collected and whether paging is
/// over: an empty page ends it; otherwise its items are added, and paging
/// goes on only when the page says there is a next one and gives a cursor.
pub open spec fn page_step(count: nat, page_len: nat, has_next_page: bool, cursor_given: bool) -> (nat, bool) {
    if page_len == 0 {
        (count, true)
    } else {
        (count + page_len, !(has_next_page && cursor_given))
    }
}

/// The number of pages fetched with limit `limit`, from `count` items
/// collected and `done`, when the endpoint answers with `pages` in turn
/// (each given by its number of items, whether it says a next page exists,
/// and whether it gives a cursor).
pub open spec fn fetches(limit: nat, count: nat, done: bool, pages: Seq<(nat, bool, bool)>) -> nat
    decreases pages.len(),
{
    if done || count >= limit || pages.len() == 0 {
        0
    } else {
        let (c, d) = page_step(count, pages[0].0, pages[0].1, pages[0].2);
        1 + fetches(limit, c, d, pages.drop_first())
    }
}

/// Each fetched page either ends paging or brings at least one item, so
/// collecting `limit` items fetches at most `limit` pages, and a limit of 0
/// fetches none.
pub proof fn lemma_fetches_bounded(limit: nat, count: nat, done: bool, pages: Seq<(nat, bool, bool)>)
    requires
        count <= limit,
    ensures
        fetches(limit, count, done, pages) <= limit - count,
        limit == 0 ==> fetches(limit, count, done, pages) == 0,
    decreases pages.len(),
{
    if !(done || count >= limit || pages.len() == 0) {
        let (c, d) = page_step(count, pages[0].0, pages[0].1, pages[0].2);
        if c <= limit {
            lemma_fetches_bounded(limit, c, d, pages.drop_first());
        }
    }
}

/// The text of a cursor a page gives, if it gives one.
pub open spec fn cursor_text(cursor: Option<String>) -> Option<Seq<char>> {
    match cursor {
        Some(c) => Some(c@),
        None => None,
    }
}

/// How taking in a page changes the items collected, the cursor and whether
/// paging is over: an empty page ends paging and changes nothing else;
/// otherwise its items are added, and the page's cursor is taken when it
/// says there is a next page and gives one, else paging ends.
pub open spec fn page_accept<T>(
    items: Seq<T>,
    cursor: Seq<char>,
    page: Seq<T>,
    has_next_page: bool,
    next_cursor: Option<Seq<char>>,
) -> (Seq<T>, Seq<char>, bool) {
    if page.len() == 0 {
        (items, cursor, true)
    } else if has_next_page && next_cursor is Some {
        (items + page, next_cursor->0, false)
    } else {
        (items + page, cursor, true)
    }
}

/// The first `limit` of `items`, or all of them where there are fewer.
pub open spec fn first_at_most<T>(items: Seq<T>, limit: nat) -> Seq<T> {
    if items.len() <= limit {
        items
    } else {
        items.take(limit as int)
    }
}

/// What to do next while collecting pages.
pub enum PageRequest {
    /// Fetch a page, with the cursor parameter when there is one.
    Fetch { cursor: Option<String> },
    /// Enough has been collected, or there are no more pages.
    Stop,
}

/// Collects up to `limit` items from a cursor-paged endpoint.
pub struct Pager<T> {
    items: Vec<T>,
    cursor: String,
    done: bool,
    limit: usize,
}

impl<T> Pager<T> {
    /// The items collected so far, in the order of their pages.
    pub closed spec fn spec_items(&self) -> Seq<T> {
        self.items@
    }

    /// The cursor of the next page; empty for the first.
    pub closed spec fn spec_cursor(&self) -> Seq<char> {
        self.cursor@
    }

    /// Whether the endpoint has no more pages to give.
    pub closed spec fn spec_done(&self) -> bool {
        self.done
    }

    pub closed spec fn spec_limit(&self) -> usize {
        self.limit
    }

    /// Whether another page is to be fetched.
    pub open spec fn wants_more(&self) -> bool {
        !self.spec_done() && self.spec_items().len() < self.spec_limit()
    }

    /// Nothing collected yet, no cursor.
    pub fn new(limit: usize) -> (res: Self)
        ensures
            res.spec_items() == Seq::<T>::empty(),
            res.spec_cursor() == Seq::<char>::empty(),
            !res.spec_done(),
            res.spec_limit() == limit,
    {
        Pager { items: Vec::new(), cursor: String::new(), done: false, limit }
    }

    /// Fetch while fewer than `limit` items are collected and pages remain;
    /// the cursor parameter is sent when the cursor is not empty.
    pub fn next_request(&self) -> (res: PageRequest)
        ensures
            !self.wants_more() ==> res is Stop,
            self.wants_more() ==> (res matches PageRequest::Fetch { cursor } && (
            self.spec_cursor().len() == 0 ==> cursor is None) && (self.spec_cursor().len() > 0
                ==> (cursor matches Some(c) && c@ == self.spec_cursor()))),
    {
        if self.done || self.items.len() >= self.limit {
            PageRequest::Stop
        } else if self.cursor.as_str().is_empty() {
            PageRequest::Fetch { cursor: None }
        } else {
            PageRequest::Fetch { cursor: Some(self.cursor.clone()) }
        }
    }

    /// Takes in a fetched page.  An empty page ends the paging; otherwise its
    /// items are added, and paging goes on from `next_cursor` when the page
    /// says there is a next one and gives a cursor, and ends if not.
    pub fn accept_page(&mut self, page: Vec<T>, has_next_page: bool, next_cursor: Option<String>)
        ensures
            final(self).spec_limit() == old(self).spec_limit(),
            (final(self).spec_items(), final(self).spec_cursor(), final(self).spec_done())
                == page_accept(
                old(self).spec_items(),
                old(self).spec_cursor(),
                page@,
                has_next_page,
                cursor_text(next_cursor),
            ),
            (final(self).spec_items().len(), final(self).spec_done()) == page_step(
                old(self).spec_items().len(),
                page@.len(),
                has_next_page,
                next_cursor is Some,
            ),
            page@.len() == 0 ==> final(self).spec_done() && final(self).spec_items() == old(
                self,
            ).spec_items() && final(self).spec_cursor() == old(self).spec_cursor(),
            page@.len() > 0 ==> final(self).spec_items() == old(self).spec_items() + page@,
            page@.len() > 0 && has_next_page && next_cursor is Some ==> !final(self).spec_done()
                && final(self).spec_cursor() == next_cursor->0@,
            page@.len() > 0 && !(has_next_page && next_cursor is Some) ==> final(self).spec_done()
                && final(self).spec_cursor() == old(self).spec_cursor(),
    {
        if page.len() == 0 {
            self.done = true;
            return;
        }
        let mut page = page;
        self.items.append(&mut page);
        if has_next_page {
            match next_cursor {
                Some(next) => {
                    self.cursor = next;
                    self.done = false;
                },
                None => {
                    self.done = true;
                },
            }
        } else {
            self.done = true;
        }
    }

    /// The first `limit` of the collected items.
    pub fn finish(self) -> (res: Vec<T>)
        ensures
            res@ == first_at_most(self.spec_items(), self.spec_limit() as nat),
    {
        let mut items = self.items;
        items.truncate(self.limit);
        items
    }
}

/// Collecting never yields more than the limit, and what it yields is the
/// start of the pages taken in, in order.
pub proof fn lemma_paging_result<T>(items: Seq<T>, limit: usize)
    ensures
        ({
            let res = if items.len() <= limit {
                items
            } else {
                items.take(limit as int)
            };
            res.len() <= limit && res.len() <= items.len() && res == items.take(res.len() as int)
        }),
{
    if items.len() <= limit {
        assert(items.take(items.len() as int) =~= items);
    }
}

// ---------------------------------------------------------------------------
// Followers and followings
// ---------------------------------------------------------------------------

/// The two user lists of an account.  They are fetched alike, with the same
/// parameters (`user_list_params`) and the same paging (`Pager`); only the
/// endpoint and the key of the page's list differ.
#[derive(Debug, Clone, Copy, PartialEq, Eq)]
pub enum UserListKind {
    Followers,
    Followings,
}

impl UserListKind {
    pub open spec fn spec_path(self) -> Seq<char> {
        match self {
            UserListKind::Followers => PATH_FOLLOWERS@,
            UserListKind::Followings => PATH_FOLLOWINGS@,
        }
    }

    pub open spec fn spec_page_key(self) -> Seq<char> {
        match self {
            UserListKind::Followers => "followers"@,
            UserListKind::Followings => "followings"@,
        }
    }

    /// The endpoint of the list.
    pub fn path(self) -> (res: &'static str)
        ensures
            res@ == self.spec_path(),
    {
        match self {
            UserListKind::Followers => PATH_FOLLOWERS,
            UserListKind::Followings => PATH_FOLLOWINGS,
        }
    }

    /// The key under which a page holds its users.
    pub fn page_key(self) -> (res: &'static str)
        ensures
            res@ == self.spec_page_key(),
    {
        match self {
            UserListKind::Followers => "followers",
            UserListKind::Followings => "followings",
        }
    }
}

/// A request for a page of a user list: the list's endpoint, and the
/// parameters (the user name, then the cursor when one is held).
pub open spec fn list_request(kind: UserListKind, username: Seq<char>, cursor: Seq<char>) -> (
    Seq<char>,
    Seq<(Seq<char>, Seq<char>)>,
) {
    (
        kind.spec_path(),
        seq![("userName"@, username)] + if cursor.len() == 0 {
            Seq::empty()
        } else {
            seq![("cursor"@, cursor)]
        },
    )
}

/// The requests a user-list fetch sends, and the users it gives back, from
/// the users collected so far, the cursor and whether paging is over, when
/// the endpoint answers the requests in turn with `answers`.  An answer is a
/// page (its users, whether it says a next page exists, its cursor), or
/// `None` where the request failed; past the last answer every request
/// fails.  A failed request ends the fetch with no list (`None`); otherwise
/// it gives the first `limit` users collected.
pub open spec fn list_run(
    kind: UserListKind,
    username: Seq<char>,
    limit: nat,
    items: Seq<User>,
    cursor: Seq<char>,
    done: bool,
    answers: Seq<Option<(Seq<User>, bool, Option<Seq<char>>)>>,
) -> (Seq<(Seq<char>, Seq<(Seq<char>, Seq<char>)>)>, Option<Seq<User>>)
    decreases answers.len(),
{
    if done || items.len() >= limit {
        (Seq::empty(), Some(first_at_most(items, limit)))
    } else {
        let request = list_request(kind, username, cursor);
        if answers.len() == 0 {
            (seq![request], None)
        } else {
            match answers[0] {
                None => (seq![request], None),
                Some(page) => {
                    let next = page_accept(items, cursor, page.0, page.1, page.2);
                    let rest = list_run(
                        kind,
                        username,
                        limit,
                        next.0,
                        next.1,
                        next.2,
                        answers.drop_first(),
                    );
                    (seq![request] + rest.0, rest.1)
                },
            }
        }
    }
}

/// Followers and followings are fetched alike: from the same user name,
/// limit, state and answers, both fetches send as many requests, with the
/// same parameters, page and stop the same way, and give the same users (or
/// both fail); only the endpoint differs, each request going to its own
/// list's.
pub proof fn lemma_user_lists_alike(
    username: Seq<char>,
    limit: nat,
    items: Seq<User>,
    cursor: Seq<char>,
    done: bool,
    answers: Seq<Option<(Seq<User>, bool, Option<Seq<char>>)>>,
)
    ensures
        ({
            let followers = list_run(UserListKind::Followers, username, limit, items, cursor, done, answers);
            let followings = list_run(UserListKind::Followings, username, limit, items, cursor, done, answers);
            &&& followers.1 == followings.1
            &&& followers.0.len() == followings.0.len()
            &&& forall|i: int|
                0 <= i < followers.0.len() ==> {
                    &&& followers.0[i].1 == followings.0[i].1
                    &&& followers.0[i].0 == PATH_FOLLOWERS@
                    &&& followings.0[i].0 == PATH_FOLLOWINGS@
                }
        }),
    decreases answers.len(),
{
    if !(done || items.len() >= limit) && answers.len() > 0 {
        if let Some(page) = answers[0] {
            let next = page_accept(items, cursor, page.0, page.1, page.2);
            lemma_user_lists_alike(username, limit, next.0, next.1, next.2, answers.drop_first());
            let f = list_run(UserListKind::Followers, username, limit, next.0, next.1, next.2, answers.drop_first());
            let g = list_run(UserListKind::Followings, username, limit, next.0, next.1, next.2, answers.drop_first());
            let rf = list_request(UserListKind::Followers, username, cursor);
            let rg = list_request(UserListKind::Followings, username, cursor);
            assert forall|i: int| 0 <= i < f.0.len() + 1 implies {
                &&& (seq![rf] + f.0)[i].1 == (seq![rg] + g.0)[i].1
                &&& (seq![rf] + f.0)[i].0 == PATH_FOLLOWERS@
                &&& (seq![rg] + g.0)[i].0 == PATH_FOLLOWINGS@
            } by {
                if i > 0 {
                    assert((seq![rf] + f.0)[i] == f.0[i - 1]);
                    assert((seq![rg] + g.0)[i] == g.0[i - 1]);
                }
            }
        }
    }
}

/// A fetch of a user list in progress: which list, of which user, and the
/// paging through it.
pub struct UserListFetch {
    kind: UserListKind,
    username: String,
    pager: Pager<User>,
}

impl UserListFetch {
    pub closed spec fn spec_kind(&self) -> UserListKind {
        self.kind
    }

    pub closed spec fn spec_username(&self) -> Seq<char> {
        self.username@
    }

    /// The users collected so far.
    pub closed spec fn spec_items(&self) -> Seq<User> {
        self.pager.spec_items()
    }

    /// The cursor of the next page; empty for the first.
    pub closed spec fn spec_cursor(&self) -> Seq<char> {
        self.pager.spec_cursor()
    }

    /// Whether the endpoint has no more pages to give.
    pub closed spec fn spec_done(&self) -> bool {
        self.pager.spec_done()
    }

    pub closed spec fn spec_limit(&self) -> nat {
        self.pager.spec_limit() as nat
    }

    /// What the fetch sends and gives from here, given the answers to come.
    pub open spec fn run_from(&self, answers: Seq<Option<(Seq<User>, bool, Option<Seq<char>>)>>) -> (
        Seq<(Seq<char>, Seq<(Seq<char>, Seq<char>)>)>,
        Option<Seq<User>>,
    ) {
        list_run(
            self.spec_kind(),
            self.spec_username(),
            self.spec_limit(),
            self.spec_items(),
            self.spec_cursor(),
            self.spec_done(),
            answers,
        )
    }

    /// A fetch of up to `limit` users of the list `kind` of `username`,
    /// with nothing collected yet.
    pub fn new(kind: UserListKind, username: &str, limit: usize) -> (res: Self)
        ensures
            res.spec_kind() == kind,
            res.spec_username() == username@,
            res.spec_limit() == limit as nat,
            res.spec_items() == Seq::<User>::empty(),
            res.spec_cursor() == Seq::<char>::empty(),
            !res.spec_done(),
    {
        UserListFetch { kind, username: username.to_owned(), pager: Pager::new(limit) }
    }

    /// The next request to send, as an endpoint path and its parameters:
    /// `list_request` of the list, the user and the cursor, while fewer than
    /// `limit` users are collected and pages remain; `None` when the fetch
    /// is over.
    pub fn next_request(&self) -> (res: Option<(&'static str, Vec<(&'static str, String)>)>)
        ensures
            res is None <==> (self.spec_done() || self.spec_items().len() >= self.spec_limit()),
            res matches Some(r) ==> (r.0@, params_view(r.1@)) == list_request(
                self.spec_kind(),
                self.spec_username(),
                self.spec_cursor(),
            ),
    {
        match self.pager.next_request() {
            PageRequest::Stop => None,
            PageRequest::Fetch { cursor } => {
                let params = user_list_params(self.username.as_str(), cursor);
                proof {
                    let expected = list_request(self.spec_kind(), self.spec_username(), self.spec_cursor());
                    assert(params_view(params@) =~= expected.1);
                }
                Some((self.kind.path(), params))
            },
        }
    }

    /// Takes in an answered page: its users, whether it says a next page
    /// exists, and its cursor.
    pub fn accept_page(&mut self, page: Vec<User>, has_next_page: bool, next_cursor: Option<String>)
        ensures
            final(self).spec_kind() == old(self).spec_kind(),
            final(self).spec_username() == old(self).spec_username(),
            final(self).spec_limit() == old(self).spec_limit(),
            (final(self).spec_items(), final(self).spec_cursor(), final(self).spec_done())
                == page_accept(
                old(self).spec_items(),
                old(self).spec_cursor(),
                page@,
                has_next_page,
                cursor_text(next_cursor),
            ),
    {
        self.pager.accept_page(page, has_next_page, next_cursor);
    }

    /// The list: the first `limit` users collected.
    pub fn finish(self) -> (res: UserList)
        ensures
            res.users@ == first_at_most(self.spec_items(), self.spec_limit()),
    {
        UserList { users: self.pager.finish() }
    }
}

/// A fetch goes as `list_run` says: while it goes on, it sends the request
/// that `next_request` gives, and an answered page moves it to the state
/// that `accept_page` gives; once over, it sends nothing and gives what
/// `finish` gives.
pub proof fn lemma_fetch_follows_run(
    fetch: UserListFetch,
    page: Seq<User>,
    has_next_page: bool,
    next_cursor: Option<Seq<char>>,
    answers: Seq<Option<(Seq<User>, bool, Option<Seq<char>>)>>,
)
    ensures
        fetch.spec_done() || fetch.spec_items().len() >= fetch.spec_limit() ==> fetch.run_from(
            answers,
        ) == (
            Seq::<(Seq<char>, Seq<(Seq<char>, Seq<char>)>)>::empty(),
            Some(first_at_most(fetch.spec_items(), fetch.spec_limit())),
        ),
        ({
            let next = page_accept(fetch.spec_items(), fetch.spec_cursor(), page, has_next_page, next_cursor);
            let rest = list_run(
                fetch.spec_kind(),
                fetch.spec_username(),
                fetch.spec_limit(),
                next.0,
                next.1,
                next.2,
                answers,
            );
            !(fetch.spec_done() || fetch.spec_items().len() >= fetch.spec_limit()) ==> fetch.run_from(
                seq![Some((page, has_next_page, next_cursor))] + answers,
            ) == (
                seq![list_request(fetch.spec_kind(), fetch.spec_username(), fetch.spec_cursor())] + rest.0,
                rest.1,
            )
        }),
{
    let all = seq![Some((page, has_next_page, next_cursor))] + answers;
    assert(all.drop_first() =~= answers);
}

// ---------------------------------------------------------------------------
// Trends
// ---------------------------------------------------------------------------

/// One entry of a trends response, as it could be read.
pub enum TrendItem {
    /// `{ "trend": { "name", "target": { "query" }, "tweet_count" } }`
    Nested { name: String, target: Option<Option<String>>, tweet_count: Option<u64> },
    /// A flat trend record.
    Flat(Trend),
    /// Neither form.
    Unrecognized,
}

/// The trend an entry stands for, if any.  A nested entry gives its name,
/// its target's query, a tweet count of 0 when none is given, and no URL.
pub open spec fn trend_of(item: TrendItem) -> Option<Trend> {
    match item {
        TrendItem::Nested { name, target, tweet_count } => Some(
            Trend {
                name: name,
                tweet_count: match tweet_count {
                    Some(c) => c,
                    None => 0,
                },
                query: match target {
                    Some(q) => q,
                    None => None,
                },
                url: None,
            },
        ),
        TrendItem::Flat(t) => Some(t),
        TrendItem::Unrecognized => None,
    }
}

/// The trends of a list of entries, skipping those of neither form.
pub open spec fn trends_of(items: Seq<TrendItem>) -> Seq<Trend>
    decreases items.len(),
{
    if items.len() == 0 {
        Seq::empty()
    } else {
        trends_of(items.drop_last()) + match trend_of(items.last()) {
            Some(t) => seq![t],
            None => Seq::empty(),
        }
    }
}

/// The trend of one entry.
fn trend_of_item(item: TrendItem) -> (res: Option<Trend>)
    ensures
        res == trend_of(item),
{
    match item {
        TrendItem::Nested { name, target, tweet_count } => {
            let count = match tweet_count {
                Some(c) => c,
                None => 0,
            };
            let query = match target {
                Some(q) => q,
                None => None,
            };
            Some(Trend { name, tweet_count: count, query, url: None })
        },
        TrendItem::Flat(t) => Some(t),
        TrendItem::Unrecognized => None,
    }
}

pub(crate) proof fn lemma_reverse_push<A>(s: Seq<A>, x: A)
    ensures
        s.push(x).reverse() == seq![x] + s.reverse(),
{
    assert(s.push(x).reverse() =~= seq![x] + s.reverse());
}

/// Reads the trends out of the entries of a response, in order.
pub fn collect_trends(items: Vec<TrendItem>) -> (res: Vec<Trend>)
    ensures
        res@ == trends_of(items@),
{
    let ghost all = items@;
    let mut rest = items;
    let mut pending: Vec<TrendItem> = Vec::new();
    assert(all =~= rest@ + pending@.reverse());
    while rest.len() > 0
        invariant
            all == rest@ + pending@.reverse(),
        decreases rest.len(),
    {
        let ghost before = rest@;
        let item = rest.pop().unwrap();
        proof {
            assert(before == rest@.push(item));
            lemma_reverse_push(pending@, item);
        }
        pending.push(item);
        assert(all =~= rest@ + pending@.reverse());
    }
    let mut trends: Vec<Trend> = Vec::new();
    let ghost mut done: Seq<TrendItem> = Seq::empty();
    assert(all =~= done + pending@.reverse());
    while pending.len() > 0
        invariant
            all == done + pending@.reverse(),
            trends@ == trends_of(done),
        decreases pending.len(),
    {
        let ghost before = pending@;
        let item = pending.pop().unwrap();
        proof {
            assert(before == pending@.push(item));
            lemma_reverse_push(pending@, item);
            assert(done.push(item).drop_last() =~= done);
            done = done.push(item);
            assert(all =~= done + pending@.reverse());
        }
        let t = trend_of_item(item);
        match t {
            Some(t) => {
                trends.push(t);
            },
            None => {},
        }
        assert(trends@ =~= trends_of(done));
    }
    assert(done =~= all);
    trends
}

} // verus!
