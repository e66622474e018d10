use vstd::prelude::*;
use crate::text::{chars_of, find_from, find_in};

verus! {

/// Base of the data endpoint; the build identifier follows it.
pub const POLYMARKET_BASE_URL: &'static str = "https://polymarket.com/_next/data";

/// Attempts made per scrape cycle before it fails.
pub const MAX_RETRIES: u32 = 3;

/// Wait after the first failed attempt; it doubles after each further one.
pub const INITIAL_RETRY_DELAY_SECS: u64 = 1;

/// Least time between two requests to the upstream service.
pub const MIN_REQUEST_INTERVAL_SECS: u64 = 1;

/// The data endpoint for a build identifier: `<base>/<id>/index.json`.
pub fn data_url(build_id: &str) -> (r: String)
    ensures
        r@ == POLYMARKET_BASE_URL@ + "/"@ + build_id@ + "/index.json"@,
{
    let mut url = String::from_str(POLYMARKET_BASE_URL);
    url.append("/");
    url.append(build_id);
    url.append("/index.json");
    url
}

/// A response is used only with a success status and a JSON content type.
pub open spec fn accepted(status: u16, content_type: Option<Seq<char>>) -> bool {
    200 <= status <= 299 && match content_type {
        Some(ct) => find_from(ct, "application/json"@, 0) is Some,
        None => false,
    }
}

/// Whether a response with this status and `Content-Type` header (`None`
/// when absent or unreadable) is taken as the payload.
pub fn accepts_response(status: u16, content_type: Option<&str>) -> (r: bool)
    ensures
        r == accepted(status, match content_type {
            Some(ct) => Some(ct@),
            None => None,
        }),
{
    if status < 200 || status > 299 {
        return false;
    }
    match content_type {
        Some(ct) => {
            let text = chars_of(ct);
            let json = chars_of("application/json");
            find_in(&text, &json, 0).is_some()
        },
        None => false,
    }
}

pub open spec fn pow2(n: nat) -> nat
    decreases n,
{
    if n == 0 {
        1
    } else {
        2 * pow2((n - 1) as nat)
    }
}

/// What to do after a failed attempt.
#[derive(Debug, Clone, Copy, PartialEq, Eq, Structural)]
pub enum RetryDecision {
    /// Wait this long, then attempt again.
    Retry { delay_secs: u64 },
    /// The cycle has failed.
    GiveUp,
}

/// After attempt `attempt` (counted from zero) fails: wait
/// `INITIAL_RETRY_DELAY_SECS * 2^attempt` while attempts remain.
pub open spec fn failure_decision(attempt: nat) -> RetryDecision {
    if attempt + 1 < MAX_RETRIES {
        RetryDecision::Retry { delay_secs: (INITIAL_RETRY_DELAY_SECS * pow2(attempt)) as u64 }
    } else {
        RetryDecision::GiveUp
    }
}

/// Decides what follows the failure of attempt `attempt` (from zero).
pub fn after_failed_attempt(attempt: u32) -> (r: RetryDecision)
    ensures
        r == failure_decision(attempt as nat),
{
    if attempt >= MAX_RETRIES - 1 {
        return RetryDecision::GiveUp;
    }
    let mut delay: u64 = INITIAL_RETRY_DELAY_SECS;
    let mut i: u32 = 0;
    while i < attempt
        invariant
            i <= attempt,
            attempt + 1 < MAX_RETRIES,
            delay == INITIAL_RETRY_DELAY_SECS * pow2(i as nat),
            delay <= 2,
        decreases attempt - i,
    {
        delay = delay * 2;
        i = i + 1;
    }
    RetryDecision::Retry { delay_secs: delay }
}

/// The decisions taken when every attempt of a cycle fails, from attempt
/// `attempt` on.
pub open spec fn decisions_when_all_fail(attempt: nat) -> Seq<RetryDecision>
    decreases MAX_RETRIES - attempt,
{
    if attempt >= MAX_RETRIES - 1 {
        seq![RetryDecision::GiveUp]
    } else {
        seq![failure_decision(attempt)] + decisions_when_all_fail(attempt + 1)
    }
}

proof fn lemma_all_fail_from(attempt: nat)
    requires
        attempt < MAX_RETRIES,
    ensures
        decisions_when_all_fail(attempt).len() == MAX_RETRIES - attempt,
        forall|k: int|
            0 <= k < MAX_RETRIES - 1 - attempt ==> #[trigger] decisions_when_all_fail(attempt)[k]
                == (RetryDecision::Retry {
                delay_secs: (INITIAL_RETRY_DELAY_SECS * pow2((attempt + k) as nat)) as u64,
            }),
        decisions_when_all_fail(attempt).last() == RetryDecision::GiveUp,
    decreases MAX_RETRIES - attempt,
{
    if attempt + 1 < MAX_RETRIES {
        lemma_all_fail_from(attempt + 1);
        let rest = decisions_when_all_fail(attempt + 1);
        assert forall|k: int| 0 <= k < MAX_RETRIES - 1 - attempt implies
            #[trigger] decisions_when_all_fail(attempt)[k] == (RetryDecision::Retry {
                delay_secs: (INITIAL_RETRY_DELAY_SECS * pow2((attempt + k) as nat)) as u64,
            }) by {
            if k > 0 {
                assert(decisions_when_all_fail(attempt)[k] == rest[k - 1]);
            }
        }
    }
}

/// When every attempt fails, a cycle makes exactly `MAX_RETRIES` attempts:
/// after the failure of attempt `k` it waits `INITIAL_RETRY_DELAY_SECS * 2^k`
/// before the next one, and after the last one it gives up.
pub proof fn retry_exhaustion()
    ensures
        decisions_when_all_fail(0).len() == MAX_RETRIES,
        forall|k: int|
            0 <= k < MAX_RETRIES - 1 ==> #[trigger] decisions_when_all_fail(0)[k]
                == (RetryDecision::Retry {
                delay_secs: (INITIAL_RETRY_DELAY_SECS * pow2(k as nat)) as u64,
            }),
        decisions_when_all_fail(0).last() == RetryDecision::GiveUp,
{
    lemma_all_fail_from(0);
}

/// How long to wait before the next request, in nanoseconds, when
/// `elapsed_nanos` have passed since the previous one.
pub fn rate_limit_wait_nanos(elapsed_nanos: u128) -> (r: u64)
    ensures
        r == if elapsed_nanos < MIN_REQUEST_INTERVAL_SECS * 1_000_000_000 {
            MIN_REQUEST_INTERVAL_SECS * 1_000_000_000 - elapsed_nanos
        } else {
            0
        },
{
    let min: u64 = MIN_REQUEST_INTERVAL_SECS * 1_000_000_000;
    if elapsed_nanos < min as u128 {
        min - elapsed_nanos as u64
    } else {
        0
    }
}

} // verus!
