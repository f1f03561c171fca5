//! Retrying: how often, how long to wait, and how to say so.
use vstd::prelude::*;

use crate::error::{concat2, concat3, DockerPullError, ErrorView};
use crate::text;

verus! {

/// A span of time: whole seconds and the nanoseconds beyond them.
#[derive(Debug, Clone, Copy, PartialEq, Eq, Structural)]
pub struct Delay {
    pub seconds: u64,
    pub nanos: u32,
}

/// Nanoseconds in a second.
pub const NANOS_PER_SECOND: u32 = 1_000_000_000;

/// The least wait before a retry, in milliseconds.
pub const MIN_RETRY_DELAY_MS: u64 = 1_000;

/// The greatest wait before a retry, in milliseconds.
pub const MAX_RETRY_DELAY_MS: u64 = 30_000;

/// The wait before the first retry, in milliseconds.
pub const INITIAL_RETRY_DELAY_MS: u64 = 1_000;

/// How far a wait is spread to either side, in milliseconds.
pub const RETRY_JITTER_MS: u64 = 250;

/// How often the time that is left is shown.
pub const RETRY_COUNTDOWN_SECONDS: u64 = 1;

impl Delay {
    /// The span in nanoseconds.
    pub open spec fn total(self) -> int {
        self.seconds * 1_000_000_000 + self.nanos
    }

    /// Whether the nanoseconds make up less than a second.
    pub open spec fn wf(self) -> bool {
        self.nanos < 1_000_000_000
    }

    /// The span of a number of milliseconds.
    pub fn from_millis(millis: u64) -> (d: Delay)
        ensures
            d.wf(),
            d.total() == millis * 1_000_000,
    {
        Delay { seconds: millis / 1_000, nanos: ((millis % 1_000) * 1_000_000) as u32 }
    }

    /// The span of a number of seconds.
    pub fn from_secs(seconds: u64) -> (d: Delay)
        ensures
            d.wf(),
            d.total() == seconds * 1_000_000_000,
    {
        Delay { seconds, nanos: 0 }
    }

    /// Whether this span is shorter than `other`.
    pub fn less(self, other: Delay) -> (r: bool)
        requires
            self.wf(),
            other.wf(),
        ensures
            r == (self.total() < other.total()),
    {
        self.seconds < other.seconds || (self.seconds == other.seconds && self.nanos
            < other.nanos)
    }

    /// What is left of this span after `other`; nothing where `other` is longer.
    pub fn saturating_sub(self, other: Delay) -> (d: Delay)
        requires
            self.wf(),
            other.wf(),
        ensures
            d.wf(),
            d.total() == if self.total() < other.total() {
                0
            } else {
                self.total() - other.total()
            },
    {
        if self.less(other) {
            Delay { seconds: 0, nanos: 0 }
        } else if self.nanos < other.nanos {
            Delay {
                seconds: self.seconds - other.seconds - 1,
                nanos: self.nanos + NANOS_PER_SECOND - other.nanos,
            }
        } else {
            Delay { seconds: self.seconds - other.seconds, nanos: self.nanos - other.nanos }
        }
    }
}

/// Whether no retry is left.
pub open spec fn is_exhausted(retries: u32, limit: Option<u32>) -> bool {
    match limit {
        Some(n) => retries >= n,
        None => false,
    }
}

/// Whether no retry is left.
pub fn retry_limit_exhausted(retries: u32, limit: Option<u32>) -> (r: bool)
    ensures
        r == is_exhausted(retries, limit),
{
    match limit {
        Some(n) => retries >= n,
        None => false,
    }
}

/// How a retry is counted: its number, and how many there can be.
pub open spec fn budget_view(next: u32, limit: Option<u32>) -> Seq<char> {
    match limit {
        Some(n) => text::decimal_view(next as nat) + "/"@ + text::decimal_view(n as nat),
        None => text::decimal_view(next as nat) + "/unlimited"@,
    }
}

/// Says how a retry is counted.
pub fn retry_budget(next: u32, limit: Option<u32>) -> (s: String)
    ensures
        s@ == budget_view(next, limit),
{
    let number = text::decimal(next as u64);
    match limit {
        Some(n) => concat3(number.as_str(), "/", text::decimal(n as u64).as_str()),
        None => concat2(number.as_str(), "/unlimited"),
    }
}

/// Counts one more retry, or says that none is left. The result tells how the retry is counted.
pub fn record_retry_attempt(
    retries: &mut u32,
    limit: Option<u32>,
    operation: &str,
    detail: &str,
) -> (r: Result<String, DockerPullError>)
    requires
        limit is None ==> *old(retries) < u32::MAX,
    ensures
        match r {
            Ok(budget) => !is_exhausted(*old(retries), limit) && *final(retries) == *old(retries)
                + 1 && budget@ == budget_view(*final(retries), limit),
            Err(e) => is_exhausted(*old(retries), limit) && *final(retries) == *old(retries) && e@
                == (ErrorView::RetryLimitExceeded {
                operation: operation@,
                retries: *old(retries),
                detail: detail@,
            }),
        },
{
    if retry_limit_exhausted(*retries, limit) {
        return Err(
            DockerPullError::RetryLimitExceeded {
                operation: operation.to_owned(),
                retries: *retries,
                detail: detail.to_owned(),
            },
        );
    }
    *retries = *retries + 1;
    Ok(retry_budget(*retries, limit))
}

/// Two to the power of `n`.
pub open spec fn doubled(n: nat) -> nat
    decreases n,
{
    if n == 0 {
        1
    } else {
        2 * doubled((n - 1) as nat)
    }
}

/// The wait before a retry without its spread, in milliseconds: it doubles with each attempt, for
/// six attempts at most, up to the greatest wait.
pub open spec fn exponential_ms(attempt: u32) -> int {
    let steps = if attempt < 6 {
        attempt as nat
    } else {
        6
    };
    let wait = INITIAL_RETRY_DELAY_MS * doubled(steps);
    if wait < MAX_RETRY_DELAY_MS {
        wait as int
    } else {
        MAX_RETRY_DELAY_MS as int
    }
}

/// `n` brought into the range from `low` to `high`.
pub open spec fn clamped(n: int, low: int, high: int) -> int {
    if n < low {
        low
    } else if n > high {
        high
    } else {
        n
    }
}

/// The wait before a retry in milliseconds, given a number from 0 to twice the spread.
pub open spec fn backoff_ms(attempt: u32, draw: int) -> int {
    clamped(
        exponential_ms(attempt) + draw - RETRY_JITTER_MS,
        MIN_RETRY_DELAY_MS as int,
        MAX_RETRY_DELAY_MS as int,
    )
}

fn exponential_delay(attempt: u32) -> (ms: u64)
    ensures
        ms == exponential_ms(attempt),
{
    let steps: u32 = if attempt < 6 {
        attempt
    } else {
        6
    };
    let mut wait: u64 = INITIAL_RETRY_DELAY_MS;
    let mut i: u32 = 0;
    while i < steps
        invariant
            i <= steps <= 6,
            wait == INITIAL_RETRY_DELAY_MS * doubled(i as nat),
            wait <= 1_000 * 64,
            i == 0 ==> wait == 1_000,
            i == 1 ==> wait == 2_000,
            i == 2 ==> wait == 4_000,
            i == 3 ==> wait == 8_000,
            i == 4 ==> wait == 16_000,
            i == 5 ==> wait == 32_000,
        decreases steps - i,
    {
        wait = wait * 2;
        i += 1;
        assert(wait == INITIAL_RETRY_DELAY_MS * doubled(i as nat)) by (nonlinear_arith)
            requires
                i > 0,
                wait == 2 * (INITIAL_RETRY_DELAY_MS * doubled((i - 1) as nat)),
                doubled(i as nat) == 2 * doubled((i - 1) as nat),
        ;
    }
    if wait < MAX_RETRY_DELAY_MS {
        wait
    } else {
        MAX_RETRY_DELAY_MS
    }
}

/// The wait before a retry, given a number from 0 to twice the spread.
pub fn backoff_delay(attempt: u32, draw: u64) -> (d: Delay)
    requires
        draw <= 2 * RETRY_JITTER_MS,
    ensures
        d.wf(),
        d.total() == backoff_ms(attempt, draw as int) * 1_000_000,
{
    let spread: u64 = exponential_delay(attempt) + draw;
    let low: u64 = MIN_RETRY_DELAY_MS + RETRY_JITTER_MS;
    let high: u64 = MAX_RETRY_DELAY_MS + RETRY_JITTER_MS;
    if spread < low {
        Delay::from_millis(MIN_RETRY_DELAY_MS)
    } else if spread > high {
        Delay::from_millis(MAX_RETRY_DELAY_MS)
    } else {
        Delay::from_millis(spread - RETRY_JITTER_MS)
    }
}

/// Calls `fastrand::u64` on the range from 0 to `limit`, both included. The number is random; it
/// lies in the range.
#[verifier::external_body]
fn random_up_to(limit: u64) -> (n: u64)
    ensures
        n <= limit,
{
    fastrand::u64(0..=limit)
}

/// The wait before a retry, spread at random so that retries do not run in step.
pub fn jittered_backoff_delay(attempt: u32) -> (d: Delay)
    ensures
        d.wf(),
        exists|draw: int|
            0 <= draw <= 2 * RETRY_JITTER_MS && d.total() == #[trigger] backoff_ms(attempt, draw)
                * 1_000_000,
{
    let draw: u64 = random_up_to(2 * RETRY_JITTER_MS);
    let d = backoff_delay(attempt, draw);
    assert(d.total() == backoff_ms(attempt, draw as int) * 1_000_000);
    d
}

/// Whatever the spread, a wait is between the least and the greatest one.
pub proof fn law_backoff_is_bounded(attempt: u32, draw: int)
    ensures
        MIN_RETRY_DELAY_MS <= backoff_ms(attempt, draw) <= MAX_RETRY_DELAY_MS,
{
}

/// A wait differs from the doubled one by at most the spread.
pub proof fn law_backoff_stays_near_its_base(attempt: u32, draw: int)
    requires
        0 <= draw <= 2 * RETRY_JITTER_MS,
    ensures
        exponential_ms(attempt) - RETRY_JITTER_MS <= backoff_ms(attempt, draw),
        backoff_ms(attempt, draw) <= exponential_ms(attempt) + RETRY_JITTER_MS,
{
    lemma_doubled_positive(if attempt < 6 {
        attempt as nat
    } else {
        6
    });
}

proof fn lemma_doubled_positive(n: nat)
    ensures
        doubled(n) >= 1,
    decreases n,
{
    if n > 0 {
        lemma_doubled_positive((n - 1) as nat);
    }
}

/// A span in whole seconds.
pub open spec fn retry_delay_view(delay: Delay) -> Seq<char> {
    text::decimal_view(delay.seconds as nat) + "s"@
}

/// Says how long a wait is, in whole seconds.
pub fn format_retry_delay(delay: Delay) -> (s: String)
    ensures
        s@ == retry_delay_view(delay),
{
    concat2(text::decimal(delay.seconds).as_str(), "s")
}

/// What a wait that is shown while it lasts does next.
#[derive(Debug, Clone, Copy, PartialEq, Eq, Structural)]
pub enum Countdown {
    /// The wait is over.
    Done,
    /// Sleep for a while.
    Sleep(Delay),
    /// Show the time that is left, then go on.
    Show(Delay),
    /// Go on without showing anything.
    Continue,
}

/// What to do with a wait before the next sleep: end it once it has passed, or sleep for what is
/// left of it, for a second at most.
pub open spec fn sleep_next(delay: Delay, elapsed: Delay) -> Countdown {
    if elapsed.total() >= delay.total() {
        Countdown::Done
    } else {
        let left = delay.total() - elapsed.total();
        Countdown::Sleep(
            if left < 1_000_000_000 {
                Delay { seconds: 0, nanos: left as u32 }
            } else {
                Delay { seconds: 1, nanos: 0 }
            },
        )
    }
}

/// Decides how long to sleep.
pub fn countdown_sleep(delay: Delay, elapsed: Delay) -> (r: Countdown)
    requires
        delay.wf(),
        elapsed.wf(),
    ensures
        r == sleep_next(delay, elapsed),
{
    if !elapsed.less(delay) {
        return Countdown::Done;
    }
    let left = delay.saturating_sub(elapsed);
    if left.seconds == 0 {
        Countdown::Sleep(left)
    } else {
        Countdown::Sleep(Delay { seconds: RETRY_COUNTDOWN_SECONDS, nanos: 0 })
    }
}

/// What to do with a wait after a sleep: end it where nothing is left; show what is left where its
/// whole seconds differ from those last shown.
pub fn countdown_tick(delay: Delay, elapsed: Delay, shown: Option<u64>) -> (r: Countdown)
    requires
        delay.wf(),
        elapsed.wf(),
    ensures
        elapsed.total() >= delay.total() ==> r == Countdown::Done,
        elapsed.total() < delay.total() ==> ({
            let left = delay.total() - elapsed.total();
            if shown == Some((left / 1_000_000_000) as u64) {
                r == Countdown::Continue
            } else {
                r matches Countdown::Show(d) && d.wf() && d.total() == left
            }
        }),
{
    let left = delay.saturating_sub(elapsed);
    if left.seconds == 0 && left.nanos == 0 {
        return Countdown::Done;
    }
    assert(left.total() / 1_000_000_000 == left.seconds);
    match shown {
        Some(seconds) => {
            if seconds == left.seconds {
                Countdown::Continue
            } else {
                Countdown::Show(left)
            }
        },
        None => Countdown::Show(left),
    }
}

/// The text of a span in its natural unit.
pub uninterp spec fn duration_text(seconds: u64, nanos: u32) -> Seq<char>;

/// Formats a `std::time::Duration` of the seconds and nanoseconds with its `Debug` form. The text
/// depends on the two numbers alone.
#[verifier::external_body]
pub(crate) fn debug_duration(seconds: u64, nanos: u32) -> (s: String)
    requires
        nanos < 1_000_000_000,
    ensures
        s@ == duration_text(seconds, nanos),
{
    format!("{:?}", std::time::Duration::new(seconds, nanos))
}

/// The number of retries that the arguments allow: a given number wins, where zero asks for no
/// limit; without one there is no limit or the default.
pub open spec fn limit_view(retries: Option<u32>, forever: bool, default: u32) -> Option<u32> {
    match retries {
        Some(n) => if n == 0 {
            None
        } else {
            Some(n)
        },
        None => if forever {
            None
        } else {
            Some(default)
        },
    }
}

/// The number of retries that the arguments allow; none means that there is no limit.
pub fn retry_limit(retries: Option<u32>, retry_forever: bool, default_retries: u32) -> (r: Option<
    u32,
>)
    ensures
        r == limit_view(retries, retry_forever, default_retries),
{
    match retries {
        Some(n) => {
            if n == 0 {
                None
            } else {
                Some(n)
            }
        },
        None => {
            if retry_forever {
                None
            } else {
                Some(default_retries)
            }
        },
    }
}

/// The number of tries that is given is the number of tries; none at all, or zero, asks for as many
/// as it takes, unless no number is given and tries are not to go on for ever.
pub proof fn law_a_given_number_of_retries_counts(
    retries: u32,
    n: Option<u32>,
    forever: bool,
    default: u32,
)
    ensures
        n is Some && n != Some(0u32) ==> limit_view(n, forever, default) == n,
        n == Some(0u32) ==> limit_view(n, forever, default) is None,
        n is None && forever ==> limit_view(n, forever, default) is None,
        n is None && !forever ==> limit_view(n, forever, default) == Some(default),
        limit_view(n, forever, default) is None ==> !is_exhausted(
            retries,
            limit_view(n, forever, default),
        ),
        limit_view(n, forever, default) matches Some(k) ==> (is_exhausted(
            retries,
            limit_view(n, forever, default),
        ) <==> k <= retries),
{
}

/// Without its spread a wait is a second at first, twice as long with each attempt, and half a
/// minute at most.
pub proof fn law_waits_double_up_to_half_a_minute(attempt: u32)
    ensures
        exponential_ms(0) == 1_000,
        exponential_ms(attempt) <= 30_000,
        attempt < u32::MAX ==> exponential_ms((attempt + 1) as u32) == vstd::math::min(
            2 * exponential_ms(attempt),
            30_000,
        ),
{
    reveal_with_fuel(doubled, 8);
}

/// A wait that is shown ends once it has passed, and no sleep is longer than what is left of it or
/// than a second.
pub proof fn law_a_shown_wait_ends_in_time(delay: Delay, elapsed: Delay)
    requires
        delay.wf(),
        elapsed.wf(),
    ensures
        elapsed.total() >= delay.total() <==> sleep_next(delay, elapsed) == Countdown::Done,
        elapsed.total() < delay.total() ==> (sleep_next(delay, elapsed) matches Countdown::Sleep(d)
            && d.total() == vstd::math::min(delay.total() - elapsed.total(), 1_000_000_000)),
{
}

} // verus!
