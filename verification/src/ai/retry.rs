//! When a failed request is sent again, and after how long.
use vstd::prelude::*;

use crate::text;

verus! {

/// How often a request is sent again.
pub const TRANSIENT_REQUEST_MAX_RETRIES: usize = 2;

/// The wait before the first time that a request is sent again, in milliseconds.
pub const TRANSIENT_REQUEST_BACKOFF_BASE_MS: u64 = 500;

/// The longest wait that a server can ask for, in milliseconds.
pub const TRANSIENT_REQUEST_MAX_RETRY_AFTER_MS: u64 = 30000;

/// Whether a reply with this HTTP status may be different the next time.
pub open spec fn retryable(status: u16) -> bool {
    status == 429 || status == 500 || status == 502 || status == 503 || status == 504
}

/// Whether a reply with this HTTP status may be different the next time.
pub fn is_retryable_status(status: u16) -> (r: bool)
    ensures
        r == retryable(status),
{
    status == 429 || status == 500 || status == 502 || status == 503 || status == 504
}

/// The wait that doubles with each time, in milliseconds.
pub open spec fn backoff_ms(retry: nat) -> nat
    decreases retry,
{
    if retry == 0 {
        TRANSIENT_REQUEST_BACKOFF_BASE_MS as nat
    } else {
        2 * backoff_ms((retry - 1) as nat)
    }
}

/// The wait that the server asked for in its `Retry-After` header, in milliseconds: a number of
/// seconds, cut off at the longest wait. A header that is no number asks for nothing.
pub open spec fn asked_ms(retry_after: Option<Seq<char>>) -> Option<nat> {
    match retry_after {
        Some(header) => match text::parsed_u64(header) {
            Some(seconds) => if seconds * 1000 > TRANSIENT_REQUEST_MAX_RETRY_AFTER_MS {
                Some(TRANSIENT_REQUEST_MAX_RETRY_AFTER_MS as nat)
            } else {
                Some((seconds * 1000) as nat)
            },
            None => None,
        },
        None => None,
    }
}

/// The contents of an optional header.
pub open spec fn header_text(header: Option<&str>) -> Option<Seq<char>> {
    match header {
        Some(s) => Some(s@),
        None => None,
    }
}

/// The wait before a request is sent again for the `retry`-th time (from zero), in milliseconds:
/// what the server asked for, else the doubling one.
pub open spec fn delay_ms(retry_after: Option<Seq<char>>, retry: nat) -> nat {
    match asked_ms(retry_after) {
        Some(ms) => ms,
        None => backoff_ms(retry),
    }
}

fn asked_delay_ms(retry_after: Option<&str>) -> (r: Option<u64>)
    ensures
        match r {
            Some(ms) => asked_ms(header_text(retry_after)) == Some(ms as nat),
            None => asked_ms(header_text(retry_after)) is None,
        },
{
    match retry_after {
        Some(header) => match text::parse_u64(header) {
            Some(seconds) => if seconds > 30 {
                Some(TRANSIENT_REQUEST_MAX_RETRY_AFTER_MS)
            } else {
                Some(seconds * 1000)
            },
            None => None,
        },
        None => None,
    }
}

fn backoff_delay_ms(retry: usize) -> (r: u64)
    requires
        retry < 32,
    ensures
        r == backoff_ms(retry as nat),
        r <= 500 * 0x8000_0000,
{
    let mut delay: u64 = TRANSIENT_REQUEST_BACKOFF_BASE_MS;
    proof {
        lemma_backoff(0);
    }
    for i in 0..retry
        invariant
            retry < 32,
            delay == backoff_ms(i as nat),
            delay <= 500 * 0x8000_0000,
    {
        proof {
            lemma_backoff((i + 1) as nat);
        }
        delay = 2 * delay;
    }
    delay
}

proof fn lemma_backoff(retry: nat)
    requires
        retry < 32,
    ensures
        500 <= backoff_ms(retry) <= 500 * 0x8000_0000,
{
    reveal_with_fuel(backoff_ms, 32);
}

/// The wait before a request is sent again for the `retry`-th time (from zero), in milliseconds.
pub fn retry_delay(retry_after: Option<&str>, retry: usize) -> (r: u64)
    requires
        retry < 32,
    ensures
        r == delay_ms(header_text(retry_after), retry as nat),
{
    match asked_delay_ms(retry_after) {
        Some(ms) => ms,
        None => backoff_delay_ms(retry),
    }
}

/// What the clock adds to a doubling wait: a number of milliseconds up to a quarter of it, drawn
/// from the nanoseconds of the current second.
pub open spec fn jitter_ms(delay: nat, clock_nanos: nat) -> nat {
    clock_nanos % (delay / 4 + 1)
}

/// The wait before a request is sent again, spread by the clock unless the server asked for a
/// wait.
pub open spec fn spread_delay_ms(
    retry_after: Option<Seq<char>>,
    retry: nat,
    clock_nanos: nat,
) -> nat {
    match asked_ms(retry_after) {
        Some(ms) => ms,
        None => backoff_ms(retry) + jitter_ms(backoff_ms(retry), clock_nanos),
    }
}

/// The wait before a request is sent again, spread by the clock unless the server asked for a
/// wait, in milliseconds.
pub fn retry_delay_with_jitter(retry_after: Option<&str>, retry: usize, clock_nanos: u32) -> (r: u64)
    requires
        retry < 32,
    ensures
        r == spread_delay_ms(header_text(retry_after), retry as nat, clock_nanos as nat),
{
    match asked_delay_ms(retry_after) {
        Some(ms) => ms,
        None => {
            let delay: u64 = backoff_delay_ms(retry);
            delay + clock_nanos as u64 % (delay / 4 + 1)
        },
    }
}

/// What a request came to.
pub enum SendOutcome<'a> {
    /// A reply, with its status and its `Retry-After` header.
    Response { status: u16, retry_after: Option<&'a str> },
    /// None: the connection failed, or time ran out, or something else went wrong.
    Failure { connect: bool, timeout: bool },
}

/// What to do next.
#[derive(Clone, Copy, Debug, PartialEq, Eq, Structural)]
pub enum RetryStep {
    /// Hand the outcome on.
    Return,
    /// Wait for so many milliseconds and send the request again.
    Resend { delay_ms: u64 },
}

/// Whether an outcome is worth another try. A timeout may have reached the server, so only
/// requests that may be repeated safely are sent again after one.
pub open spec fn transient(outcome: SendOutcome, retry_timeouts: bool) -> bool {
    match outcome {
        SendOutcome::Response { status, .. } => retryable(status),
        SendOutcome::Failure { connect, timeout } => connect || (retry_timeouts && timeout),
    }
}

/// The header that a reply asks for a wait with.
pub open spec fn wait_header(outcome: SendOutcome) -> Option<Seq<char>> {
    match outcome {
        SendOutcome::Response { retry_after, .. } => header_text(retry_after),
        SendOutcome::Failure { .. } => None,
    }
}

/// What follows the outcome of the `retry`-th try (from zero).
pub open spec fn step_after(
    outcome: SendOutcome,
    retry: nat,
    retry_timeouts: bool,
    clock_nanos: nat,
) -> RetryStep {
    if !transient(outcome, retry_timeouts) || retry >= TRANSIENT_REQUEST_MAX_RETRIES {
        RetryStep::Return
    } else {
        RetryStep::Resend {
            delay_ms: spread_delay_ms(wait_header(outcome), retry, clock_nanos) as u64,
        }
    }
}

/// Says after each try whether the request is sent again.
pub fn next_step(outcome: SendOutcome, retry: usize, retry_timeouts: bool, clock_nanos: u32) -> (r:
    RetryStep)
    ensures
        r == step_after(outcome, retry as nat, retry_timeouts, clock_nanos as nat),
        r matches RetryStep::Resend { delay_ms } ==> delay_ms == spread_delay_ms(
            wait_header(outcome),
            retry as nat,
            clock_nanos as nat,
        ),
{
    if retry >= TRANSIENT_REQUEST_MAX_RETRIES {
        return RetryStep::Return;
    }
    match outcome {
        SendOutcome::Response { status, retry_after } => if is_retryable_status(status) {
            RetryStep::Resend { delay_ms: retry_delay_with_jitter(retry_after, retry, clock_nanos) }
        } else {
            RetryStep::Return
        },
        SendOutcome::Failure { connect, timeout } => if connect || (retry_timeouts && timeout) {
            RetryStep::Resend { delay_ms: retry_delay_with_jitter(None, retry, clock_nanos) }
        } else {
            RetryStep::Return
        },
    }
}

/// A request is sent three times at most, whatever comes back, and never waits longer than half a
/// minute in between: a server cannot ask for more.
pub proof fn law_retries_are_bounded(
    outcome: SendOutcome,
    retry: nat,
    retry_timeouts: bool,
    clock_nanos: nat,
)
    ensures
        retry >= 2 ==> step_after(outcome, retry, retry_timeouts, clock_nanos) is Return,
        step_after(outcome, retry, retry_timeouts, clock_nanos) matches RetryStep::Resend {
            delay_ms,
        } ==> delay_ms <= TRANSIENT_REQUEST_MAX_RETRY_AFTER_MS,
{
    if retry < 2 {
        reveal_with_fuel(backoff_ms, 2);
        let delay = backoff_ms(retry);
        assert(delay <= 1000);
        assert(jitter_ms(delay, clock_nanos) <= delay / 4);
    }
}

/// A wait without a header is the doubling one and up to a quarter more, whatever the clock says.
pub proof fn law_jitter_stays_within_a_quarter(retry: nat, clock_nanos: nat)
    ensures
        backoff_ms(retry) <= spread_delay_ms(None, retry, clock_nanos),
        4 * spread_delay_ms(None, retry, clock_nanos) <= 5 * backoff_ms(retry),
{
    assert(jitter_ms(backoff_ms(retry), clock_nanos) <= backoff_ms(retry) / 4);
}

/// A generation whose connection was made is never sent twice on account of a timeout.
pub proof fn law_generation_is_not_repeated_after_a_timeout(retry: nat, clock_nanos: nat)
    ensures
        step_after(
            (SendOutcome::Failure { connect: false, timeout: true }),
            retry,
            false,
            clock_nanos,
        ) is Return,
{
}

/// What is done after a request: a reply that says the server is busy or broken, or a connection
/// that failed, is tried twice more, and a timeout only where that is asked for. The wait is as long
/// as the server asks for, up to half a minute; where it asks for nothing, half a second and then a
/// second, and up to a quarter more.
pub proof fn law_passing_troubles_are_waited_out(
    status: u16,
    header: Option<&str>,
    connect: bool,
    timeout: bool,
    retry: nat,
    retry_timeouts: bool,
    clock_nanos: nat,
)
    ensures
        ({
            let step = step_after(
                SendOutcome::Response { status, retry_after: header },
                retry,
                retry_timeouts,
                clock_nanos,
            );
            let again = retry < 2 && (status == 429 || status == 500 || status == 502 || status
                == 503 || status == 504);
            &&& !again ==> step is Return
            &&& again ==> step is Resend
            &&& step matches RetryStep::Resend { delay_ms } ==> {
                let seconds = match header {
                    Some(s) => text::parsed_u64(s@),
                    None => None,
                };
                &&& seconds matches Some(n) ==> delay_ms == if n <= 30 {
                    n * 1_000
                } else {
                    30_000
                }
                &&& seconds is None && retry == 0 ==> delay_ms == 500 + clock_nanos % 126
                &&& seconds is None && retry == 1 ==> delay_ms == 1_000 + clock_nanos % 251
            }
        }),
        ({
            let step = step_after(
                SendOutcome::Failure { connect, timeout },
                retry,
                retry_timeouts,
                clock_nanos,
            );
            let again = retry < 2 && (connect || (timeout && retry_timeouts));
            &&& !again ==> step is Return
            &&& again ==> step is Resend
            &&& step matches RetryStep::Resend { delay_ms } ==> {
                &&& retry == 0 ==> delay_ms == 500 + clock_nanos % 126
                &&& retry == 1 ==> delay_ms == 1_000 + clock_nanos % 251
            }
        }),
{
    assert(backoff_ms(0) == 500);
    assert(backoff_ms(1) == 1_000);
    assert(jitter_ms(500, clock_nanos) == clock_nanos % 126);
    assert(jitter_ms(1_000, clock_nanos) == clock_nanos % 251);
}

/// The wait that the server asks for is kept to whatever the number of the try; and without one it
/// doubles from try to try, starting at half a second.
pub proof fn law_waits_double(header: Option<&str>, retry: nat)
    ensures
        ({
            let seconds = match header {
                Some(s) => text::parsed_u64(s@),
                None => None,
            };
            let asked = match header {
                Some(s) => Some(s@),
                None => None,
            };
            &&& seconds matches Some(n) ==> delay_ms(asked, retry) == if n <= 30 {
                n * 1_000
            } else {
                30_000
            }
            &&& seconds is None ==> delay_ms(asked, 0) == 500 && delay_ms(asked, retry + 1) == 2
                * delay_ms(asked, retry)
        }),
{
    assert(backoff_ms(0) == 500);
}

} // verus!
