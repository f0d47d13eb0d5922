//! Bounded retry of an operation that may fail for a while after boot: finding the network
//! address and binding a listener, or joining a wireless network.

use vstd::prelude::*;

verus! {

/// Attempts at finding the local address and binding the TCP listener.
pub const TCP_BIND_ATTEMPTS: u32 = 4;

/// Seconds to wait between two attempts at binding the TCP listener.
pub const TCP_BIND_RETRY_SECS: u64 = 10;

/// Attempts at joining a wireless network.
pub const WIFI_JOIN_ATTEMPTS: u32 = 3;

/// What to do after a failed attempt.
#[derive(Clone, Copy, Debug, PartialEq, Eq, Structural)]
pub enum RetryDecision {
    /// Wait this many seconds, then try again.
    RetryAfter(u64),
    /// No attempt is left: report the failure.
    GiveUp,
}

/// A count of failed attempts against a limit.
#[derive(Clone, Copy, Debug, PartialEq, Eq, Structural)]
pub struct RetryPolicy {
    pub limit: u32,
    pub delay_secs: u64,
    pub failures: u32,
}

/// The decision after the `failures`th failure under a limit of `limit` attempts.
pub open spec fn decision_after(limit: u32, delay_secs: u64, failures: nat) -> RetryDecision {
    if failures < limit {
        RetryDecision::RetryAfter(delay_secs)
    } else {
        RetryDecision::GiveUp
    }
}

impl RetryPolicy {
    /// The policy for binding the TCP listener: four attempts, ten seconds apart.
    pub fn tcp_bind() -> (r: RetryPolicy)
        ensures
            r == (RetryPolicy { limit: TCP_BIND_ATTEMPTS, delay_secs: TCP_BIND_RETRY_SECS, failures: 0 }),
    {
        RetryPolicy { limit: TCP_BIND_ATTEMPTS, delay_secs: TCP_BIND_RETRY_SECS, failures: 0 }
    }

    /// The policy for joining a wireless network: three attempts, one after the other.
    pub fn wifi_join() -> (r: RetryPolicy)
        ensures
            r == (RetryPolicy { limit: WIFI_JOIN_ATTEMPTS, delay_secs: 0, failures: 0 }),
    {
        RetryPolicy { limit: WIFI_JOIN_ATTEMPTS, delay_secs: 0, failures: 0 }
    }

    /// Is another attempt allowed?
    pub fn may_attempt(&self) -> (r: bool)
        ensures
            r == (self.failures < self.limit),
    {
        self.failures < self.limit
    }

    /// Record a failed attempt and decide what to do.
    pub fn failed(&mut self) -> (r: RetryDecision)
        requires
            old(self).failures < old(self).limit,
        ensures
            final(self).limit == old(self).limit,
            final(self).delay_secs == old(self).delay_secs,
            final(self).failures == old(self).failures + 1,
            r == decision_after(old(self).limit, old(self).delay_secs, final(self).failures as nat),
    {
        self.failures = self.failures + 1;
        if self.failures < self.limit {
            RetryDecision::RetryAfter(self.delay_secs)
        } else {
            RetryDecision::GiveUp
        }
    }
}

/// The outcome of running attempts whose successes are `outcomes`, in order, under a limit of
/// `limit` attempts: the index of the first attempt that succeeds, or `None` if every allowed
/// attempt fails.
pub open spec fn first_success(outcomes: Seq<bool>, limit: nat) -> Option<nat>
    decreases limit,
{
    if limit == 0 || outcomes.len() == 0 {
        None
    } else if outcomes[0] {
        Some(0)
    } else {
        match first_success(outcomes.drop_first(), (limit - 1) as nat) {
            Some(i) => Some(i + 1),
            None => None,
        }
    }
}

/// Drive `policy` over attempts whose successes are `outcomes`: the index of the attempt that
/// succeeded, or `None` when the policy gave up or the outcomes ran out.
pub fn run_attempts(policy: RetryPolicy, outcomes: &Vec<bool>) -> (r: Option<usize>)
    requires
        policy.failures == 0,
    ensures
        match r {
            Some(i) => first_success(outcomes@, policy.limit as nat) == Some(i as nat),
            None => first_success(outcomes@, policy.limit as nat) is None,
        },
{
    let mut p = policy;
    let mut i: usize = 0;
    assert(outcomes@.skip(0) =~= outcomes@);
    while i < outcomes.len() && p.may_attempt()
        invariant
            p.limit == policy.limit,
            p.failures == i,
            i <= policy.limit,
            i <= outcomes@.len(),
            forall|j: int| 0 <= j < i ==> !outcomes@[j],
            first_success(outcomes@, policy.limit as nat) == match first_success(
                outcomes@.skip(i as int),
                (policy.limit - i) as nat,
            ) {
                Some(k) => Some((k + i) as nat),
                None => None::<nat>,
            },
        decreases outcomes@.len() - i,
    {
        if outcomes[i] {
            assert(outcomes@.skip(i as int)[0] == outcomes@[i as int]);
            return Some(i);
        }
        let _ = p.failed();
        proof {
            assert(outcomes@.skip(i as int).drop_first() =~= outcomes@.skip(i + 1));
        }
        i = i + 1;
    }
    assert(outcomes@.skip(i as int).len() == 0 || policy.limit - i == 0);
    assert(first_success(outcomes@.skip(i as int), (policy.limit - i) as nat) is None);
    None
}

/// With four attempts, three failures followed by a success succeed on the fourth attempt.
pub proof fn lemma_tcp_bind_fourth_attempt(rest: Seq<bool>)
    ensures
        first_success(seq![false, false, false, true] + rest, TCP_BIND_ATTEMPTS as nat) == Some(3nat),
{
    let s = seq![false, false, false, true] + rest;
    assert(s.drop_first() =~= seq![false, false, true] + rest);
    assert(s.drop_first().drop_first() =~= seq![false, true] + rest);
    assert(s.drop_first().drop_first().drop_first() =~= seq![true] + rest);
    reveal_with_fuel(first_success, 5);
}

} // verus!
