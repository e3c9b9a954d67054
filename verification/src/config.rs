//! The program's settings and the order in which their sources count.
use vstd::prelude::*;
use std::path::PathBuf;

verus! {

/// The settings of a run.
#[derive(Debug)]
pub struct AppConfig {
    pub api_key: Option<String>,
    pub no_cache: bool,
    pub json_output: bool,
    pub cache_dir: PathBuf,
}

/// The API key: from the command line first, then the environment, then the
/// config file.
pub open spec fn chosen_api_key(
    from_flag: Option<String>,
    from_env: Option<String>,
    from_file: Option<String>,
) -> Option<String> {
    if from_flag is Some {
        from_flag
    } else if from_env is Some {
        from_env
    } else {
        from_file
    }
}

pub fn resolve_api_key(
    from_flag: Option<String>,
    from_env: Option<String>,
    from_file: Option<String>,
) -> (res: Option<String>)
    ensures
        res == chosen_api_key(from_flag, from_env, from_file),
{
    match from_flag {
        Some(k) => Some(k),
        None => match from_env {
            Some(k) => Some(k),
            None => from_file,
        },
    }
}

impl AppConfig {
    /// The settings from the command line's key and flags, the key in the
    /// environment, the key in the config file and the cache directory.
    pub fn from_sources(
        api_key: Option<String>,
        no_cache: bool,
        json_output: bool,
        env_api_key: Option<String>,
        file_api_key: Option<String>,
        cache_dir: PathBuf,
    ) -> (res: Self)
        ensures
            res.api_key == chosen_api_key(api_key, env_api_key, file_api_key),
            res.no_cache == no_cache,
            res.json_output == json_output,
            res.cache_dir == cache_dir,
    {
        AppConfig {
            api_key: resolve_api_key(api_key, env_api_key, file_api_key),
            no_cache,
            json_output,
            cache_dir,
        }
    }
}

/// Of three sources the command line wins, and a later source counts only
/// where the ones before it give nothing.
pub proof fn lemma_api_key_priority(a: Option<String>, b: Option<String>, c: Option<String>)
    ensures
        a is Some ==> chosen_api_key(a, b, c) == a,
        a is None && b is Some ==> chosen_api_key(a, b, c) == b,
        a is None && b is None ==> chosen_api_key(a, b, c) == c,
        chosen_api_key(a, b, c) is None <==> (a is None && b is None && c is None),
{
}

} // verus!
