//! The settings one run of the pipeline works with.
use vstd::prelude::*;
use crate::text::push_str;

verus! {

pub const DEFAULT_MODEL: &'static str = "deepseek-r1:8b";
pub const DEFAULT_ENDPOINT: &'static str = "http://localhost:11434/api/generate";
pub const DEFAULT_SIZE_THRESHOLD: usize = 8000;
pub const DEFAULT_CHUNK_SIZE: usize = 6000;
pub const DEFAULT_MAX_ATTEMPTS: u32 = 3;
pub const DEFAULT_RETRY_DELAY_MS: u64 = 1000;
pub const DEFAULT_TIMEOUT_SECS: u64 = 600;

/// Where the commits are read, which service analyses them, and the limits
/// that the analysis keeps to.
pub struct Config {
    pub repo_path: String,
    pub model: String,
    pub endpoint_url: String,
    /// The largest formatted diff, in characters, analysed in one request.
    pub size_threshold: usize,
    /// The largest chunk, in characters, of a diff that is split.
    pub chunk_size: usize,
    /// How many times one request is tried at most.
    pub max_attempts: u32,
    pub retry_delay_ms: u64,
    pub timeout_secs: u64,
}

impl Config {
    /// The usual settings, for the repository at `repo_path`.
    pub fn with_defaults(repo_path: &str) -> (r: Config)
        ensures
            r.repo_path@ == repo_path@,
            r.model@ == DEFAULT_MODEL@,
            r.endpoint_url@ == DEFAULT_ENDPOINT@,
            r.size_threshold == DEFAULT_SIZE_THRESHOLD,
            r.chunk_size == DEFAULT_CHUNK_SIZE,
            r.max_attempts == DEFAULT_MAX_ATTEMPTS,
            r.retry_delay_ms == DEFAULT_RETRY_DELAY_MS,
            r.timeout_secs == DEFAULT_TIMEOUT_SECS,
    {
        let mut repo = String::new();
        push_str(&mut repo, repo_path);
        let mut model = String::new();
        push_str(&mut model, DEFAULT_MODEL);
        let mut url = String::new();
        push_str(&mut url, DEFAULT_ENDPOINT);
        assert(repo@ =~= repo_path@);
        assert(model@ =~= DEFAULT_MODEL@);
        assert(url@ =~= DEFAULT_ENDPOINT@);
        Config {
            repo_path: repo,
            model,
            endpoint_url: url,
            size_threshold: DEFAULT_SIZE_THRESHOLD,
            chunk_size: DEFAULT_CHUNK_SIZE,
            max_attempts: DEFAULT_MAX_ATTEMPTS,
            retry_delay_ms: DEFAULT_RETRY_DELAY_MS,
            timeout_secs: DEFAULT_TIMEOUT_SECS,
        }
    }
}

} // verus!
