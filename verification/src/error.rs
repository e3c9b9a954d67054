//! The errors of the library and the messages they are shown with.
use vstd::prelude::*;

verus! {

/// What can go wrong while talking to the service or using the cache.
/// Failures of the network, of file access and of JSON decoding carry the
/// message of the underlying error.
#[derive(Debug, Clone)]
pub enum TwitterApiError {
    Network(String),
    Api(String),
    RateLimited,
    AuthError(String),
    Cache(String),
    Io(String),
    Json(String),
}

impl TwitterApiError {
    /// The text the error is shown with.
    pub open spec fn spec_message(&self) -> Seq<char> {
        match self {
            TwitterApiError::Network(m) => "Network error: "@ + m@,
            TwitterApiError::Api(m) => "API error: "@ + m@,
            TwitterApiError::RateLimited => "Rate limited (429). Retries exhausted."@,
            TwitterApiError::AuthError(m) => "Authentication error: "@ + m@,
            TwitterApiError::Cache(m) => "Cache error: "@ + m@,
            TwitterApiError::Io(m) => "IO error: "@ + m@,
            TwitterApiError::Json(m) => "JSON error: "@ + m@,
        }
    }

    pub fn message(&self) -> (res: String)
        ensures
            res@ == self.spec_message(),
    {
        let mut out = String::new();
        match self {
            TwitterApiError::Network(m) => {
                out.push_str("Network error: ");
                out.push_str(m.as_str());
            },
            TwitterApiError::Api(m) => {
                out.push_str("API error: ");
                out.push_str(m.as_str());
            },
            TwitterApiError::RateLimited => {
                out.push_str("Rate limited (429). Retries exhausted.");
            },
            TwitterApiError::AuthError(m) => {
                out.push_str("Authentication error: ");
                out.push_str(m.as_str());
            },
            TwitterApiError::Cache(m) => {
                out.push_str("Cache error: ");
                out.push_str(m.as_str());
            },
            TwitterApiError::Io(m) => {
                out.push_str("IO error: ");
                out.push_str(m.as_str());
            },
            TwitterApiError::Json(m) => {
                out.push_str("JSON error: ");
                out.push_str(m.as_str());
            },
        }
        assert(out@ =~= self.spec_message());
        out
    }
}

/// The error for a response with status 401 or 403: `status` is the status
/// as text, `body` the response body.
pub fn auth_failure(status: &str, body: &str) -> (res: TwitterApiError)
    ensures
        res matches TwitterApiError::AuthError(m) && m@ == "Authentication failed ("@ + status@ + "): "@
            + body@,
{
    let mut m = String::new();
    m.push_str("Authentication failed (");
    m.push_str(status);
    m.push_str("): ");
    m.push_str(body);
    TwitterApiError::AuthError(m)
}

/// The error for any other unsuccessful response.
pub fn status_failure(status: &str, body: &str) -> (res: TwitterApiError)
    ensures
        res matches TwitterApiError::Api(m) && m@ == "API returned status "@ + status@ + ": "@ + body@,
{
    let mut m = String::new();
    m.push_str("API returned status ");
    m.push_str(status);
    m.push_str(": ");
    m.push_str(body);
    TwitterApiError::Api(m)
}

/// The error for a user lookup that returned no data.
pub fn user_not_found(username: &str) -> (res: TwitterApiError)
    ensures
        res matches TwitterApiError::Api(m) && m@ == "User '"@ + username@ + "' not found"@,
{
    let mut m = String::new();
    m.push_str("User '");
    m.push_str(username);
    m.push_str("' not found");
    TwitterApiError::Api(m)
}

/// A failure to create the cache directory.
pub fn cache_dir_failure(reason: &str) -> (res: TwitterApiError)
    ensures
        res matches TwitterApiError::Cache(m) && m@ == "Failed to create cache dir: "@ + reason@,
{
    let mut m = String::new();
    m.push_str("Failed to create cache dir: ");
    m.push_str(reason);
    TwitterApiError::Cache(m)
}

/// A failure to write a cache file.
pub fn cache_write_failure(reason: &str) -> (res: TwitterApiError)
    ensures
        res matches TwitterApiError::Cache(m) && m@ == "Failed to write cache: "@ + reason@,
{
    let mut m = String::new();
    m.push_str("Failed to write cache: ");
    m.push_str(reason);
    TwitterApiError::Cache(m)
}

} // verus!
