//! User-Agent pool with uniform random selection.

use crate::config::default_user_agents;
use crate::text;
use rand::Rng;
use vstd::prelude::*;

verus! {

/// The user-agent pool.
pub fn ua_pool() -> (r: Vec<String>)
    ensures
        text::views(r@) == crate::config::user_agent_list(),
{
    default_user_agents()
}

/// `rand::Rng::gen_range` on the thread's generator: an index below `n`. Which one
/// is chance.
#[verifier::external_body]
fn random_index(n: usize) -> (r: usize)
    requires
        n > 0,
    ensures
        r < n,
{
    rand::thread_rng().gen_range(0..n)
}

/// A pool of browser User-Agent strings.
#[derive(Debug, Clone, Copy, PartialEq, Eq, Structural)]
pub struct UserAgentPool;

impl UserAgentPool {
    /// Return a uniformly random user-agent string from the pool. Each call draws
    /// an independent random sample.
    pub fn random_ua() -> (r: String)
        ensures
            crate::config::user_agent_list().contains(r@),
    {
        let pool = ua_pool();
        assert(text::views(pool@).len() == pool@.len());
        let index: usize = random_index(pool.len());
        assert(text::views(pool@)[index as int] == pool@[index as int]@);
        pool[index].clone()
    }
}

} // verus!
