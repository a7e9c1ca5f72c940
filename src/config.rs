//! Settings kept between runs.
use vstd::prelude::*;

verus! {

/// The repository whose issues are tracked, as `owner/name`.
#[derive(Debug, Clone)]
pub struct Config {
    pub repository: String,
}

impl Config {
    pub fn new(repo: String) -> (r: Config)
        ensures
            r.repository@ == repo@,
    {
        Config { repository: repo }
    }
}

} // verus!
