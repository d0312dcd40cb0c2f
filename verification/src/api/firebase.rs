use rand::Rng;
use vstd::prelude::*;

use crate::config::FETCH_RETRIES;
use crate::types::ApiItem;

verus! {

/// The ids one discovery list gave, or why it failed.
#[derive(Debug)]
pub struct DiscoveryResult {
    pub endpoint: &'static str,
    pub ids: Result<Vec<u64>, String>,
}

/// One fetched item, or why the fetch failed.
#[derive(Debug)]
pub struct ItemFetchResult {
    pub id: u64,
    pub item: Result<ApiItem, String>,
}

/// Calls rand's `thread_rng().gen_range(low..=high)`. The contract claims
/// only what rand documents of every outcome: the number lies in the range,
/// ends included. rand panics on an empty range, which `requires` leaves out.
#[verifier::external_body]
fn random_in_range(low: u64, high: u64) -> (r: u64)
    requires
        low <= high,
    ensures
        low <= r <= high,
{
    rand::thread_rng().gen_range(low..=high)
}

/// The wait for a drawn jitter: the drawn milliseconds, but never more
/// than 2000.
pub fn clamp_delay(drawn: u64) -> (millis: u64)
    ensures
        millis == if drawn < 2000 {
            drawn
        } else {
            2000
        },
{
    if drawn < 2000 {
        drawn
    } else {
        2000
    }
}

/// The wait before fetch attempt `attempt` (counted from 1), in
/// milliseconds: none before the first; before the second, 500 ms with
/// ±50% jitter; before later ones, 1000 ms with ±50% jitter; never more
/// than 2000 ms.
pub fn retry_delay(attempt: usize) -> (millis: u64)
    ensures
        attempt <= 1 ==> millis == 0,
        attempt == 2 ==> 250 <= millis <= 750,
        attempt >= 3 ==> 500 <= millis <= 1500,
        millis <= 2000,
{
    if attempt <= 1 {
        return 0;
    }
    let base: u64 = if attempt == 2 {
        500
    } else {
        1000
    };
    clamp_delay(random_in_range(base / 2, base + base / 2))
}

/// What to do after a failed fetch attempt.
#[derive(Clone, Copy, Debug, PartialEq, Eq, Structural)]
pub enum RetryStep {
    /// Wait this long, then make attempt `next_attempt`.
    Wait { millis: u64, next_attempt: usize },
    /// Stop and report the last error.
    GiveUp,
}

/// After fetch attempt `attempt` (counted from 1) failed: wait and retry,
/// or give up once `FETCH_RETRIES` attempts were made.
pub fn after_failed_attempt(attempt: usize) -> (r: RetryStep)
    requires
        1 <= attempt,
    ensures
        attempt < FETCH_RETRIES ==> (r matches RetryStep::Wait { millis, next_attempt }
            && next_attempt == attempt + 1 && (next_attempt == 2 ==> 250 <= millis <= 750) && (
        next_attempt >= 3 ==> 500 <= millis <= 1500)),
        attempt >= FETCH_RETRIES ==> r is GiveUp,
{
    if attempt >= FETCH_RETRIES {
        RetryStep::GiveUp
    } else {
        let next_attempt = attempt + 1;
        RetryStep::Wait { millis: retry_delay(next_attempt), next_attempt }
    }
}

} // verus!
