//! Exponential backoff retry with full jitter and `Retry-After` header respect.
//!
//! - Algorithm: `min(cap, base_delay * 2^attempt)` with full jitter.
//! - Never retry: `AccessDenied`, `CaptchaDetected`.
//! - Terminal: `HttpError(404)`.
//! - Retryable: `RateLimited`, `HttpError(5xx)`, `Timeout`, `Internal`.
//! - On 429 with `Retry-After`: `max(computed_backoff, retry_after_secs)`.

use crate::config::AntiBlockingConfig;
use crate::search::provider::ProviderError;
use rand::Rng;
use vstd::arithmetic::power2::*;
use vstd::prelude::*;

verus! {

/// Configuration for the exponential backoff retry loop.
#[derive(Debug, Clone, Copy, PartialEq, Eq, Structural)]
pub struct RetryConfig {
    /// Base delay in seconds before the first retry.
    pub base_delay_secs: u64,
    /// Maximum number of attempts (including the initial call).
    pub max_attempts: u32,
    /// Upper cap on the computed backoff delay in seconds.
    pub cap_secs: u64,
}

impl RetryConfig {
    /// Create a new `RetryConfig`.
    pub fn new(base_delay_secs: u64, max_attempts: u32, cap_secs: u64) -> (r: Self)
        ensures
            r == (RetryConfig { base_delay_secs, max_attempts, cap_secs }),
    {
        RetryConfig { base_delay_secs, max_attempts, cap_secs }
    }
}

impl From<&AntiBlockingConfig> for RetryConfig {
    fn from(c: &AntiBlockingConfig) -> (r: Self) {
        RetryConfig {
            base_delay_secs: c.retry_base_delay_secs,
            max_attempts: c.retry_max_attempts,
            cap_secs: c.retry_cap_secs,
        }
    }
}

impl vstd::std_specs::convert::FromSpecImpl<&AntiBlockingConfig> for RetryConfig {
    open spec fn obeys_from_spec() -> bool {
        true
    }

    open spec fn from_spec(c: &AntiBlockingConfig) -> Self {
        RetryConfig {
            base_delay_secs: c.retry_base_delay_secs,
            max_attempts: c.retry_max_attempts,
            cap_secs: c.retry_cap_secs,
        }
    }
}

/// Classification of an error for retry decision-making.
///
/// Implementors declare whether a given error variant is retryable and,
/// optionally, provide a server-suggested backoff duration (e.g., from
/// the `Retry-After` header on HTTP 429).
pub trait ClassifyRetry {
    /// Whether the error is transient.
    spec fn retryable(&self) -> bool;

    /// The `Retry-After` hint of the error in seconds.
    spec fn hint(&self) -> Option<u64>;

    /// Returns `true` if the error is transient and the operation can be retried.
    fn is_retryable(&self) -> (r: bool)
        ensures
            r == self.retryable(),
    ;

    /// If the server provided a `Retry-After` hint (in seconds), return it.
    ///
    /// The retry loop uses `max(computed_backoff, retry_after_hint)` when
    /// this returns `Some`.
    fn retry_after_hint(&self) -> (r: Option<u64>)
        ensures
            r == self.hint(),
    ;
}

impl ClassifyRetry for ProviderError {
    open spec fn retryable(&self) -> bool {
        match self {
            ProviderError::RateLimited { .. } => true,
            ProviderError::HttpError { status, .. } => *status >= 500,
            ProviderError::Timeout { .. } => true,
            ProviderError::Internal(_) => true,
            _ => false,
        }
    }

    open spec fn hint(&self) -> Option<u64> {
        match self {
            ProviderError::RateLimited { retry_after } => *retry_after,
            _ => None,
        }
    }

    fn is_retryable(&self) -> (r: bool) {
        match self {
            ProviderError::RateLimited { .. } => true,
            ProviderError::HttpError { status, .. } => *status >= 500,
            ProviderError::Timeout { .. } => true,
            ProviderError::Internal(_) => true,
            // Access denied, captcha, not configured, parse errors
            _ => false,
        }
    }

    fn retry_after_hint(&self) -> (r: Option<u64>) {
        match self {
            ProviderError::RateLimited { retry_after } => *retry_after,
            _ => None,
        }
    }
}

/// What to do after a failed attempt.
#[derive(Debug, Clone, Copy, PartialEq, Eq, Structural)]
pub enum RetryStep {
    /// Return the error.
    GiveUp,
    /// Sleep for so many nanoseconds, then try again.
    Wait {
        /// The delay in nanoseconds.
        nanos: u128,
    },
}

/// The backoff in seconds after attempt `attempt`, counted from zero, before jitter.
pub open spec fn backoff_secs(config: RetryConfig, attempt: u32) -> int {
    let grown = config.base_delay_secs * pow2(attempt as nat);
    if grown < config.cap_secs {
        grown
    } else {
        config.cap_secs as int
    }
}

/// The delay in nanoseconds once `draw` of `2^53` equal parts of the backoff were
/// drawn, and the server's hint is honoured.
pub open spec fn delay_nanos(backoff: int, draw: u64, hint: Option<u64>) -> int {
    let jittered = (backoff * 1_000_000_000 * draw) / 0x20_0000_0000_0000;
    match hint {
        Some(secs) => if jittered < secs * 1_000_000_000 {
            secs * 1_000_000_000
        } else {
            jittered
        },
        None => jittered,
    }
}

/// What is to be done after attempt `attempt` failed with an error of the given class.
pub open spec fn retry_decision(
    retryable: bool,
    hint: Option<u64>,
    attempt: u32,
    config: RetryConfig,
    draw: u64,
) -> RetryStep {
    if !retryable || attempt + 1 >= config.max_attempts {
        RetryStep::GiveUp
    } else {
        RetryStep::Wait { nanos: delay_nanos(backoff_secs(config, attempt), draw, hint) as u128 }
    }
}

/// The backoff in seconds after attempt `attempt`, counted from zero, before jitter.
pub fn computed_backoff(config: &RetryConfig, attempt: u32) -> (r: u64)
    ensures
        r == backoff_secs(*config, attempt),
{
    let base: u64 = config.base_delay_secs;
    let cap: u64 = config.cap_secs;
    if base == 0 {
        assert(0 * pow2(attempt as nat) == 0) by (nonlinear_arith);
        return 0;
    }
    let mut delay: u64 = if base < cap {
        base
    } else {
        cap
    };
    let mut i: u32 = 0;
    proof {
        lemma2_to64();
    }
    while i < attempt && delay < cap
        invariant
            i <= attempt,
            base > 0,
            base == config.base_delay_secs,
            cap == config.cap_secs,
            delay == backoff_secs(*config, i),
        decreases attempt - i,
    {
        proof {
            lemma_pow2_unfold((i + 1) as nat);
            assert(base * pow2((i + 1) as nat) == 2 * (base * pow2(i as nat))) by (nonlinear_arith)
                requires
                    pow2((i + 1) as nat) == 2 * pow2(i as nat),
            ;
        }
        delay = if delay < cap - delay {
            2 * delay
        } else {
            cap
        };
        i = i + 1;
    }
    proof {
        if i < attempt {
            lemma_pow2_strictly_increases(i as nat, attempt as nat);
            assert(base * pow2(attempt as nat) >= base * pow2(i as nat)) by (nonlinear_arith)
                requires
                    pow2(attempt as nat) >= pow2(i as nat),
            ;
        }
    }
    delay
}

/// What is to be done after attempt `attempt`, counted from zero, failed with `err`:
/// give up where the error is not retryable or no attempt is left, else wait for
/// `draw` parts of `2^53` of the backoff, and no less than the server asked for.
pub fn retry_step<E: ClassifyRetry>(err: &E, attempt: u32, config: &RetryConfig, draw: u64) -> (r:
    RetryStep)
    requires
        config.max_attempts >= 1,
        draw < 0x20_0000_0000_0000,
    ensures
        r == retry_decision(err.retryable(), err.hint(), attempt, *config, draw),
{
    if !err.is_retryable() || attempt >= config.max_attempts - 1 {
        return RetryStep::GiveUp;
    }
    let backoff: u64 = computed_backoff(config, attempt);
    let total: u128 = backoff as u128 * 1_000_000_000;
    let parts: u128 = 0x20_0000_0000_0000;
    let k: u128 = draw as u128;
    let q: u128 = total / parts;
    let rest: u128 = total % parts;
    proof {
        assert(q * k <= total && rest * k <= parts * parts) by (nonlinear_arith)
            requires
                k < parts,
                q == total / parts,
                rest < parts,
                parts == 0x20_0000_0000_0000,
        ;
    }
    let jittered: u128 = q * k + rest * k / parts;
    proof {
        assert((total * k) as int / parts as int == q * k + (rest * k) as int / parts as int)
            by (nonlinear_arith)
            requires
                total == q * parts + rest,
                parts == 0x20_0000_0000_0000,
        ;
        assert(total * k == backoff * 1_000_000_000 * draw);
    }
    let nanos: u128 = match err.retry_after_hint() {
        Some(secs) => {
            let asked: u128 = secs as u128 * 1_000_000_000;
            if jittered < asked {
                asked
            } else {
                jittered
            }
        },
        None => jittered,
    };
    RetryStep::Wait { nanos }
}

/// `rand::Rng::gen_range` on the thread's generator: a number below `2^53`.
/// Which one is chance.
#[verifier::external_body]
pub(crate) fn random_draw() -> (r: u64)
    ensures
        r < 0x20_0000_0000_0000,
{
    rand::thread_rng().gen_range(0..0x20_0000_0000_0000u64)
}

/// What is to be done after attempt `attempt`, counted from zero, failed with `err`,
/// with a jitter drawn at random.
pub fn next_retry<E: ClassifyRetry>(err: &E, attempt: u32, config: &RetryConfig) -> (r: RetryStep)
    requires
        config.max_attempts >= 1,
    ensures
        exists|draw: u64|
            draw < 0x20_0000_0000_0000 && r == #[trigger] retry_decision(
                err.retryable(),
                err.hint(),
                attempt,
                *config,
                draw,
            ),
{
    retry_step(err, attempt, config, random_draw())
}

/// A wait is never longer than the backoff of its attempt, which is never more than
/// the cap, unless the server asked for more; and it is never shorter than that.
pub proof fn waits_are_bounded(
    hint: Option<u64>,
    attempt: u32,
    config: RetryConfig,
    draw: u64,
)
    requires
        draw < 0x20_0000_0000_0000,
        attempt + 1 < config.max_attempts,
    ensures
        retry_decision(true, hint, attempt, config, draw) matches RetryStep::Wait { nanos } && {
            &&& backoff_secs(config, attempt) <= config.cap_secs
            &&& match hint {
                Some(secs) => nanos >= secs * 1_000_000_000 && (nanos <= backoff_secs(config, attempt)
                    * 1_000_000_000 || nanos == secs * 1_000_000_000),
                None => nanos <= backoff_secs(config, attempt) * 1_000_000_000,
            }
        },
{
    let backoff = backoff_secs(config, attempt);
    assert(0 <= config.base_delay_secs * pow2(attempt as nat)) by (nonlinear_arith);
    let total = backoff * 1_000_000_000;
    let jittered = (total * draw) / 0x20_0000_0000_0000;
    assert(0 <= jittered <= total) by (nonlinear_arith)
        requires
            0 <= total,
            0 <= draw < 0x20_0000_0000_0000,
            jittered == (total * draw) / 0x20_0000_0000_0000,
    ;
}

/// The backoff never shrinks from one attempt to a later one.
pub proof fn backoff_never_shrinks(config: RetryConfig, earlier: u32, later: u32)
    requires
        earlier <= later,
    ensures
        backoff_secs(config, earlier) <= backoff_secs(config, later),
{
    if earlier < later {
        lemma_pow2_strictly_increases(earlier as nat, later as nat);
    }
    assert(config.base_delay_secs * pow2(earlier as nat) <= config.base_delay_secs * pow2(
        later as nat,
    )) by (nonlinear_arith)
        requires
            pow2(earlier as nat) <= pow2(later as nat),
    ;
}

/// Whatever is drawn, an operation is tried no more than `max_attempts` times: its
/// last attempt gives up, and so does every attempt whose error is not retryable.
pub proof fn attempts_are_bounded(
    retryable: bool,
    hint: Option<u64>,
    attempt: u32,
    config: RetryConfig,
    draw: u64,
)
    ensures
        (attempt + 1 >= config.max_attempts || !retryable) <==> retry_decision(
            retryable,
            hint,
            attempt,
            config,
            draw,
        ) is GiveUp,
{
}

/// Which errors may pass: a rate limit, a timeout, an internal error, and a status from 500 on;
/// denials, challenges, bodies that cannot be parsed, missing configuration and other statuses
/// stay. Only a rate limit says how long to wait.
pub proof fn errors_that_may_pass(e: ProviderError)
    ensures
        e is RateLimited || e is Timeout || e is Internal ==> e.retryable(),
        e is AccessDenied || e is CaptchaDetected || e is ParseError || e is NotConfigured
            ==> !e.retryable(),
        e matches ProviderError::HttpError { status, .. } ==> (e.retryable() <==> status >= 500),
        e matches ProviderError::RateLimited { retry_after } ==> e.hint() == retry_after,
        !(e is RateLimited) ==> e.hint() is None,
{
}

/// The backoff starts at the base delay and doubles with each attempt, up to the cap.
pub proof fn the_backoff_doubles(config: RetryConfig, attempt: u32)
    requires
        attempt < u32::MAX,
    ensures
        config.base_delay_secs <= config.cap_secs ==> backoff_secs(config, 0)
            == config.base_delay_secs,
        config.base_delay_secs > config.cap_secs ==> backoff_secs(config, 0) == config.cap_secs,
        2 * backoff_secs(config, attempt) <= config.cap_secs ==> backoff_secs(
            config,
            (attempt + 1) as u32,
        ) == 2 * backoff_secs(config, attempt),
        2 * backoff_secs(config, attempt) > config.cap_secs ==> backoff_secs(
            config,
            (attempt + 1) as u32,
        ) == config.cap_secs,
{
    lemma2_to64();
    lemma_pow2_unfold((attempt + 1) as nat);
    let base = config.base_delay_secs as int;
    assert(base * pow2((attempt + 1) as nat) == 2 * (base * pow2(attempt as nat)))
        by (nonlinear_arith)
        requires
            pow2((attempt + 1) as nat) == 2 * pow2(attempt as nat),
    ;
    assert(0 <= base * pow2(attempt as nat)) by (nonlinear_arith)
        requires
            base >= 0,
    ;
}

/// The wait is the drawn share of the backoff, to the nanosecond, or what the server asked for
/// where that is more.
pub proof fn waits_are_the_drawn_share(
    hint: Option<u64>,
    attempt: u32,
    config: RetryConfig,
    draw: u64,
)
    requires
        draw < 0x20_0000_0000_0000,
        attempt + 1 < config.max_attempts,
    ensures
        retry_decision(true, hint, attempt, config, draw) matches RetryStep::Wait { nanos } && {
            let share = backoff_secs(config, attempt) * 1_000_000_000 * draw;
            &&& hint is None ==> nanos * 0x20_0000_0000_0000 <= share < (nanos + 1)
                * 0x20_0000_0000_0000
            &&& hint is Some && nanos != hint->0 * 1_000_000_000 ==> nanos > hint->0
                * 1_000_000_000 && nanos * 0x20_0000_0000_0000 <= share < (nanos + 1)
                * 0x20_0000_0000_0000
            &&& hint is Some ==> share < (nanos + 1) * 0x20_0000_0000_0000
        },
{
    waits_are_bounded(None, attempt, config, draw);
    let backoff = backoff_secs(config, attempt);
    let share = backoff * 1_000_000_000 * draw;
    assert(0 <= config.base_delay_secs * pow2(attempt as nat)) by (nonlinear_arith);
    assert(0 <= share) by (nonlinear_arith)
        requires
            share == backoff * 1_000_000_000 * draw,
            backoff >= 0,
            draw >= 0,
    ;
    assert(share / 0x20_0000_0000_0000 <= backoff * 1_000_000_000) by (nonlinear_arith)
        requires
            share == backoff * 1_000_000_000 * draw,
            backoff >= 0,
            0 <= draw < 0x20_0000_0000_0000,
    ;
}

} // verus!
