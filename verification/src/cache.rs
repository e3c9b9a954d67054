//! The local cache: which file holds which resource, how long an entry stays
//! fresh, when the cache may be read, and the key of a search.
use vstd::prelude::*;
use sha2::Digest;
use std::path::PathBuf;
use std::time::SystemTime;
use vstd::utf8::encode_utf8;
use crate::text::{decimal, decimal_string};

verus! {

/// A file-system path.
#[verifier::external_type_specification]
#[verifier::external_body]
pub struct ExPathBuf(std::path::PathBuf);

/// Seconds a user profile stays fresh (1 day).
pub const TTL_USER_PROFILE_SECS: u64 = 86400;

/// Seconds a tweet stays fresh (7 days).
pub const TTL_TWEET_SECS: u64 = 604800;

/// Seconds a search result stays fresh (1 hour).
pub const TTL_SEARCH_SECS: u64 = 3600;

/// Seconds a trends list stays fresh (5 minutes).
pub const TTL_TRENDS_SECS: u64 = 300;

/// Seconds a followers or following list stays fresh (1 hour).
pub const TTL_FOLLOWERS_SECS: u64 = 3600;

/// What `str::to_lowercase` returns for a string: its Unicode lower case.
pub uninterp spec fn lowercase(s: Seq<char>) -> Seq<char>;

/// `str::to_lowercase`: the result is named `lowercase` of the argument.
#[verifier::external_body]
fn to_lowercase(s: &str) -> (res: String)
    ensures
        res@ == lowercase(s@),
{
    s.to_lowercase()
}

/// The SHA-256 digest of a byte sequence.
pub uninterp spec fn sha256_digest(data: Seq<u8>) -> Seq<u8>;

/// `sha2::Sha256::digest`: the result is named `sha256_digest` of the input,
/// and is 32 bytes long (`OutputSize = U32` in sha2).
#[verifier::external_body]
fn sha256(data: &[u8]) -> (res: Vec<u8>)
    ensures
        res@ == sha256_digest(data@),
        res@.len() == 32,
{
    sha2::Sha256::digest(data).to_vec()
}

/// The character of a hexadecimal digit in lower case.
pub open spec fn hex_digit(v: u8) -> char {
    if v < 10 {
        (v + 48) as char
    } else {
        (v + 87) as char
    }
}

/// Lower-case hexadecimal, two digits per byte, high nibble first.
pub open spec fn hex_lower(data: Seq<u8>) -> Seq<char>
    decreases data.len(),
{
    if data.len() == 0 {
        Seq::empty()
    } else {
        seq![hex_digit(data[0] / 16), hex_digit(data[0] % 16)] + hex_lower(data.drop_first())
    }
}

/// `hex::encode`: each byte as two lower-case hexadecimal digits.
#[verifier::external_body]
fn hex_encode(data: &[u8]) -> (res: String)
    ensures
        res@ == hex_lower(data@),
{
    hex::encode(data)
}

/// The bytes that are hashed for a search key: the query, a zero byte, the
/// query type, a zero byte and the decimal limit, each in UTF-8.
pub open spec fn search_key_input(query: Seq<char>, query_type: Seq<char>, limit: nat) -> Seq<u8> {
    encode_utf8(query) + seq![0u8] + encode_utf8(query_type) + seq![0u8] + encode_utf8(decimal(limit))
}

/// The cache key of a search: the first 8 bytes of the SHA-256 digest of
/// its input, in hexadecimal.
pub open spec fn search_key(query: Seq<char>, query_type: Seq<char>, limit: nat) -> Seq<char> {
    hex_lower(sha256_digest(search_key_input(query, query_type, limit)).take(8))
}

/// Appends the bytes of `b` to `v`.
fn extend_bytes(v: &mut Vec<u8>, b: &[u8])
    ensures
        final(v)@ == old(v)@ + b@,
{
    let n = b.len();
    for i in 0..n
        invariant
            n == b@.len(),
            v@ == old(v)@ + b@.take(i as int),
    {
        v.push(b[i]);
        assert(b@.take(i + 1) =~= b@.take(i as int).push(b@[i as int]));
    }
    assert(b@.take(n as int) =~= b@);
}

/// A resource that the cache can hold.
pub enum CacheResource {
    UserProfile { username: String },
    Tweet { tweet_id: String },
    Search { key: String },
    Trends { woeid: u64 },
    UserList { username: String, list_type: String },
}

/// Where an entry lives, and how long it stays fresh.
pub struct CacheSlot {
    pub file_name: String,
    pub ttl_secs: u64,
}

impl CacheResource {
    /// The name of the file in the cache directory that holds the resource;
    /// user names are taken in lower case.
    pub open spec fn spec_file_name(&self) -> Seq<char> {
        match self {
            CacheResource::UserProfile { username } => "user_"@ + lowercase(username@) + ".json"@,
            CacheResource::Tweet { tweet_id } => "tweet_"@ + tweet_id@ + ".json"@,
            CacheResource::Search { key } => "search_"@ + key@ + ".json"@,
            CacheResource::Trends { woeid } => "trends_"@ + decimal(*woeid as nat) + ".json"@,
            CacheResource::UserList { username, list_type } => list_type@ + "_"@ + lowercase(
                username@,
            ) + ".json"@,
        }
    }

    /// How long an entry for the resource stays fresh.
    pub open spec fn spec_ttl_secs(&self) -> u64 {
        match self {
            CacheResource::UserProfile { .. } => TTL_USER_PROFILE_SECS,
            CacheResource::Tweet { .. } => TTL_TWEET_SECS,
            CacheResource::Search { .. } => TTL_SEARCH_SECS,
            CacheResource::Trends { .. } => TTL_TRENDS_SECS,
            CacheResource::UserList { .. } => TTL_FOLLOWERS_SECS,
        }
    }

    pub fn file_name(&self) -> (res: String)
        ensures
            res@ == self.spec_file_name(),
    {
        let mut out = String::new();
        match self {
            CacheResource::UserProfile { username } => {
                out.push_str("user_");
                let lower = to_lowercase(username.as_str());
                out.push_str(lower.as_str());
            },
            CacheResource::Tweet { tweet_id } => {
                out.push_str("tweet_");
                out.push_str(tweet_id.as_str());
            },
            CacheResource::Search { key } => {
                out.push_str("search_");
                out.push_str(key.as_str());
            },
            CacheResource::Trends { woeid } => {
                out.push_str("trends_");
                let w = decimal_string(*woeid);
                out.push_str(w.as_str());
            },
            CacheResource::UserList { username, list_type } => {
                out.push_str(list_type.as_str());
                out.push_str("_");
                let lower = to_lowercase(username.as_str());
                out.push_str(lower.as_str());
            },
        }
        out.push_str(".json");
        assert(out@ =~= self.spec_file_name());
        out
    }

    pub fn ttl_secs(&self) -> (res: u64)
        ensures
            res == self.spec_ttl_secs(),
    {
        match self {
            CacheResource::UserProfile { .. } => TTL_USER_PROFILE_SECS,
            CacheResource::Tweet { .. } => TTL_TWEET_SECS,
            CacheResource::Search { .. } => TTL_SEARCH_SECS,
            CacheResource::Trends { .. } => TTL_TRENDS_SECS,
            CacheResource::UserList { .. } => TTL_FOLLOWERS_SECS,
        }
    }

    /// The slot of the resource: its file and its time to live.
    pub fn slot(&self) -> (res: CacheSlot)
        ensures
            res.file_name@ == self.spec_file_name(),
            res.ttl_secs == self.spec_ttl_secs(),
    {
        CacheSlot { file_name: self.file_name(), ttl_secs: self.ttl_secs() }
    }
}

/// The local cache: a directory, and whether entries may be read from it.
pub struct Cache {
    dir: PathBuf,
    read_enabled: bool,
}

/// A cached value and the time it was written.
pub struct CacheHit<T> {
    pub data: T,
    pub cached_at: SystemTime,
}

impl Cache {
    pub closed spec fn spec_dir(&self) -> PathBuf {
        self.dir
    }

    /// Whether entries may be read; writes happen either way.
    pub closed spec fn spec_read_enabled(&self) -> bool {
        self.read_enabled
    }

    /// A cache in `cache_dir`; with `no_cache` it is written but never read.
    pub fn new(cache_dir: PathBuf, no_cache: bool) -> (res: Self)
        ensures
            res.spec_dir() == cache_dir,
            res.spec_read_enabled() == !no_cache,
    {
        Cache { dir: cache_dir, read_enabled: !no_cache }
    }

    pub fn dir(&self) -> (res: &PathBuf)
        ensures
            *res == self.spec_dir(),
    {
        &self.dir
    }

    pub fn read_enabled(&self) -> (res: bool)
        ensures
            res == self.spec_read_enabled(),
    {
        self.read_enabled
    }

    /// The slot to read `resource` from, or `None` when reading is disabled.
    pub fn read_slot(&self, resource: &CacheResource) -> (res: Option<CacheSlot>)
        ensures
            res is Some <==> self.spec_read_enabled(),
            res matches Some(s) ==> s.file_name@ == resource.spec_file_name() && s.ttl_secs
                == resource.spec_ttl_secs(),
    {
        if !self.read_enabled {
            return None;
        }
        Some(resource.slot())
    }

    /// The slot to write `resource` to.
    pub fn write_slot(&self, resource: &CacheResource) -> (res: CacheSlot)
        ensures
            res.file_name@ == resource.spec_file_name(),
            res.ttl_secs == resource.spec_ttl_secs(),
    {
        resource.slot()
    }

    /// The cache key of a search for `query` of type `query_type` with at
    /// most `limit` results: 16 lower-case hexadecimal digits.
    pub fn search_cache_key(query: &str, query_type: &str, limit: usize) -> (res: String)
        ensures
            res@ == search_key(query@, query_type@, limit as nat),
            res@.len() == 16,
            is_lower_hex(res@),
    {
        let mut input: Vec<u8> = Vec::new();
        extend_bytes(&mut input, query.as_bytes());
        input.push(0u8);
        extend_bytes(&mut input, query_type.as_bytes());
        input.push(0u8);
        let limit_text = decimal_string(limit as u64);
        extend_bytes(&mut input, limit_text.as_str().as_bytes());
        proof {
            assert(input@ =~= search_key_input(query@, query_type@, limit as nat));
        }
        let digest = sha256(input.as_slice());
        let mut prefix: Vec<u8> = Vec::new();
        for i in 0..8
            invariant
                digest@.len() == 32,
                prefix@ == digest@.take(i as int),
        {
            prefix.push(digest[i]);
            assert(digest@.take(i + 1) =~= digest@.take(i as int).push(digest@[i as int]));
        }
        proof {
            lemma_hex_lower_shape(prefix@);
        }
        hex_encode(prefix.as_slice())
    }
}

/// Whether an entry of age `age` (whole seconds and nanoseconds; `None` when
/// its modification time lies in the future) may be used with time to live
/// `ttl_secs`: it may unless it is older than the time to live.
pub fn entry_is_fresh(age: Option<(u64, u32)>, ttl_secs: u64) -> (res: bool)
    ensures
        res == match age {
            Some((secs, nanos)) => secs < ttl_secs || (secs == ttl_secs && nanos == 0),
            None => false,
        },
{
    match age {
        Some((secs, nanos)) => secs < ttl_secs || (secs == ttl_secs && nanos == 0),
        None => false,
    }
}


/// Every character of `s` is a lower-case hexadecimal digit.
pub open spec fn is_lower_hex(s: Seq<char>) -> bool {
    forall|i: int|
        0 <= i < s.len() ==> ('0' <= #[trigger] s[i] <= '9' || 'a' <= s[i] <= 'f')
}

/// Hexadecimal encoding gives two lower-case hexadecimal digits per byte.
pub proof fn lemma_hex_lower_shape(data: Seq<u8>)
    ensures
        hex_lower(data).len() == 2 * data.len(),
        is_lower_hex(hex_lower(data)),
    decreases data.len(),
{
    if data.len() > 0 {
        lemma_hex_lower_shape(data.drop_first());
        let h = seq![hex_digit(data[0] / 16), hex_digit(data[0] % 16)];
        let t = hex_lower(data.drop_first());
        assert forall|i: int| 0 <= i < h.len() implies ('0' <= #[trigger] h[i] <= '9' || 'a'
            <= h[i] <= 'f') by {
            let v: u8 = if i == 0 { data[0] / 16 } else { data[0] % 16 };
            assert(h[i] == hex_digit(v));
            if v < 10 {
                assert(hex_digit(v) as u32 == v + 48);
            } else {
                assert(hex_digit(v) as u32 == v + 87);
            }
        }
        assert forall|i: int| 0 <= i < (h + t).len() implies ('0' <= #[trigger] (h + t)[i] <= '9'
            || 'a' <= (h + t)[i] <= 'f') by {
            if i < 2 {
                assert((h + t)[i] == h[i]);
            } else {
                assert((h + t)[i] == t[i - 2]);
            }
        }
    }
}

/// User names differing only in case share their cache files.
pub proof fn lemma_user_files_ignore_case(a: String, b: String, list_type: String)
    requires
        lowercase(a@) == lowercase(b@),
    ensures
        (CacheResource::UserProfile { username: a }).spec_file_name() == (CacheResource::UserProfile {
            username: b,
        }).spec_file_name(),
        (CacheResource::UserList { username: a, list_type }).spec_file_name()
            == (CacheResource::UserList { username: b, list_type }).spec_file_name(),
{
}

/// Distinct kinds of resource never share a file: the file name starts with
/// the kind.
pub proof fn lemma_trends_and_tweets_apart(woeid: u64, tweet_id: String)
    ensures
        (CacheResource::Trends { woeid }).spec_file_name() != (CacheResource::Tweet {
            tweet_id,
        }).spec_file_name(),
{
    broadcast use vstd::string::group_string_axioms;
    reveal_strlit("trends_");
    reveal_strlit("tweet_");
    let a = (CacheResource::Trends { woeid }).spec_file_name();
    let b = (CacheResource::Tweet { tweet_id }).spec_file_name();
    let ta = "trends_"@;
    let tb = "tweet_"@;
    assert(ta =~= seq!['t', 'r', 'e', 'n', 'd', 's', '_']);
    assert(tb =~= seq!['t', 'w', 'e', 'e', 't', '_']);
    assert(a == ta + (decimal(woeid as nat) + ".json"@));
    assert(b == tb + (tweet_id@ + ".json"@));
    assert(a[4] == ta[4]);
    assert(b[4] == tb[4]);
}

/// An entry fresh at some age is fresh at any younger age.
pub proof fn lemma_freshness_monotone(older: (u64, u32), younger: (u64, u32), ttl_secs: u64)
    requires
        younger.0 < older.0 || (younger.0 == older.0 && younger.1 <= older.1),
        older.0 < ttl_secs || (older.0 == ttl_secs && older.1 == 0),
    ensures
        younger.0 < ttl_secs || (younger.0 == ttl_secs && younger.1 == 0),
{
}

} // verus!
