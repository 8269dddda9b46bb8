//! Retrying failed requests: how long to wait, and how often.

use crate::clock;
use crate::downloader::mtime;
use crate::downloader::mtime::parse_http_date;
use crate::error::IaGetError;
use crate::text;
use crate::text::Trim;
use vstd::prelude::*;

verus! {

/// How often a failing request is retried.
pub const MAX_RETRIES: u32 = 10;

/// The delay before the first retry, in milliseconds.
pub const INITIAL_RETRY_DELAY_MS: u64 = 5_000;

/// The longest delay that doubling leads to, in milliseconds.
pub const MAX_RETRY_DELAY_MS: u64 = 60_000;

/// The longest delay that a server can ask for, in seconds.
pub const MAX_RETRY_AFTER_SECS: u64 = 900;

/// How often a wait looks for a request to stop, in milliseconds.
pub const INTERRUPT_CHECK_INTERVAL_MS: u128 = 500;

/// What a linear congruential generator multiplies by, and adds.
pub const LCG_MULTIPLIER: u64 = 6364136223846793005;

pub const LCG_INCREMENT: u64 = 1442695040888963407;

/// The seed where the clock gives none.
pub const FALLBACK_SEED: u64 = 0x9E37_79B9_7F4A_7C15;

// ---------------------------------------------------------------------------
// How long to wait
// ---------------------------------------------------------------------------

/// The percentage that a seed jitters a delay to: 80 to 120.
pub open spec fn jitter_percent(seed: u64) -> nat {
    let x = (seed * LCG_MULTIPLIER + LCG_INCREMENT) % 0x1_0000_0000_0000_0000;
    (80 + x / 0x2_0000_0000 % 41) as nat
}

/// A delay jittered by a seed; the product is cut to 64 bits.
pub open spec fn jittered(value_ms: nat, seed: u64) -> nat {
    let product = value_ms * jitter_percent(seed);
    if product <= u64::MAX {
        product / 100
    } else {
        u64::MAX as nat / 100
    }
}

/// The delay before a retry, before jitter: it doubles with each retry up to
/// the cap.
pub open spec fn capped_delay(attempt: nat) -> nat
    decreases attempt,
{
    if attempt <= 1 {
        INITIAL_RETRY_DELAY_MS as nat
    } else if 2 * capped_delay((attempt - 1) as nat) <= MAX_RETRY_DELAY_MS {
        2 * capped_delay((attempt - 1) as nat)
    } else {
        MAX_RETRY_DELAY_MS as nat
    }
}

/// The delay before a retry.
pub open spec fn backoff(attempt: nat, seed: u64) -> nat {
    jittered(capped_delay(attempt), seed)
}

/// Jitter moves a delay by a fifth at most, where a fifth more fits 64 bits.
pub proof fn jitter_is_at_most_a_fifth(value_ms: nat, seed: u64)
    requires
        value_ms * 120 <= u64::MAX,
    ensures
        value_ms * 80 / 100 <= jittered(value_ms, seed) <= value_ms * 120 / 100,
{
    let percent = jitter_percent(seed);
    assert(80 <= percent <= 120);
    assert(value_ms * 80 <= value_ms * percent <= value_ms * 120) by (nonlinear_arith)
        requires
            80 <= percent <= 120,
            value_ms >= 0,
    ;
}

/// Delays start at five seconds, double up to a minute, and vary by a fifth.
pub proof fn backoff_stays_within_bounds(attempt: nat, seed: u64)
    ensures
        capped_delay(attempt) <= MAX_RETRY_DELAY_MS,
        INITIAL_RETRY_DELAY_MS <= capped_delay(attempt),
        attempt <= 1 ==> 4_000 <= backoff(attempt, seed) <= 6_000,
        attempt == 2 ==> 8_000 <= backoff(attempt, seed) <= 12_000,
        attempt == 3 ==> 16_000 <= backoff(attempt, seed) <= 24_000,
        attempt == 4 ==> 32_000 <= backoff(attempt, seed) <= 48_000,
        attempt >= 5 ==> 48_000 <= backoff(attempt, seed) <= 72_000,
    decreases attempt,
{
    jitter_is_at_most_a_fifth(capped_delay(attempt), seed);
    if attempt > 1 {
        backoff_stays_within_bounds((attempt - 1) as nat, seed);
        lemma_capped_delay(attempt);
    }
}

proof fn lemma_capped_delay(attempt: nat)
    ensures
        attempt <= 1 ==> capped_delay(attempt) == 5_000,
        attempt == 2 ==> capped_delay(attempt) == 10_000,
        attempt == 3 ==> capped_delay(attempt) == 20_000,
        attempt == 4 ==> capped_delay(attempt) == 40_000,
        attempt >= 5 ==> capped_delay(attempt) == 60_000,
    decreases attempt,
{
    if attempt > 1 {
        lemma_capped_delay((attempt - 1) as nat);
    }
}

/// A later retry waits no less before jitter.
pub proof fn delays_never_shrink(attempt: nat)
    ensures
        capped_delay(attempt) <= capped_delay(attempt + 1),
{
    lemma_capped_delay(attempt);
    lemma_capped_delay(attempt + 1);
}

/// A delay jittered by a seed.
pub fn jitter_with_seed(value_ms: u64, seed: u64) -> (r: u64)
    ensures
        r == jittered(value_ms as nat, seed),
{
    assert(seed * 6364136223846793005 <= 0xffff_ffff_ffff_ffff * 6364136223846793005);
    let x: u64 = ((seed as u128 * LCG_MULTIPLIER as u128 + LCG_INCREMENT as u128)
        % 0x1_0000_0000_0000_0000) as u64;
    let percent: u64 = 80 + x / 0x2_0000_0000 % 41;
    match value_ms.checked_mul(percent) {
        Some(product) => product / 100,
        None => u64::MAX / 100,
    }
}

/// A delay jittered by the clock.
pub fn jitter_ms(value_ms: u64) -> (r: u64)
    ensures
        exists|seed: u64| r == #[trigger] jittered(value_ms as nat, seed),
{
    jitter_with_seed(value_ms, seed_from_clock())
}

/// The delay before a retry, for a seed.
pub fn backoff_with_seed(attempt: u32, seed: u64) -> (r: u64)
    ensures
        r == backoff(attempt as nat, seed),
{
    let mut base: u64 = INITIAL_RETRY_DELAY_MS;
    let mut i: u32 = 1;
    while i < attempt && base < MAX_RETRY_DELAY_MS
        invariant
            i >= 1,
            attempt >= 1 ==> i <= attempt,
            attempt < 1 ==> i == 1,
            base <= MAX_RETRY_DELAY_MS,
            base == capped_delay(i as nat),
        decreases attempt - i,
    {
        base = if 2 * base <= MAX_RETRY_DELAY_MS {
            2 * base
        } else {
            MAX_RETRY_DELAY_MS
        };
        i += 1;
    }
    proof {
        lemma_capped_delay(i as nat);
        lemma_capped_delay(attempt as nat);
    }
    jitter_with_seed(base, seed)
}

/// The seed that a time in nanoseconds gives: its low 64 bits; a fixed one
/// before the epoch.
pub open spec fn seed_of(now_nanos: int) -> u64 {
    if now_nanos >= 0 {
        (now_nanos % 0x1_0000_0000_0000_0000) as u64
    } else {
        FALLBACK_SEED
    }
}

/// The seed that a time in nanoseconds gives.
pub fn seed_at(now_nanos: i128) -> (r: u64)
    ensures
        r == seed_of(now_nanos as int),
{
    if now_nanos >= 0 {
        (now_nanos as u128 % 0x1_0000_0000_0000_0000) as u64
    } else {
        FALLBACK_SEED
    }
}

/// A seed from the clock: the one that the present gives. Nothing is claimed
/// of it, for some time gives every seed.
fn seed_from_clock() -> (r: u64) {
    seed_at(clock::now_nanos())
}

/// The delay before a retry, jittered by the clock, in milliseconds.
pub fn backoff_delay(attempt: u32) -> (r: u64)
    ensures
        exists|seed: u64| r == #[trigger] backoff(attempt as nat, seed),
        capped_delay(attempt as nat) * 80 / 100 <= r <= capped_delay(attempt as nat) * 120 / 100,
{
    let seed: u64 = seed_from_clock();
    proof {
        jitter_is_at_most_a_fifth(capped_delay(attempt as nat), seed);
    }
    backoff_with_seed(attempt, seed)
}

// ---------------------------------------------------------------------------
// What the server asks for
// ---------------------------------------------------------------------------

/// A number of seconds, cut to the longest that a server can ask for.
pub open spec fn capped_secs(secs: nat) -> u64 {
    if secs <= MAX_RETRY_AFTER_SECS {
        secs as u64
    } else {
        MAX_RETRY_AFTER_SECS
    }
}

/// The whole seconds from a time in nanoseconds to one in seconds; none are
/// left to a time that has passed.
pub open spec fn secs_until(date: nat, now_nanos: int) -> nat {
    let date_nanos = date * 1_000_000_000;
    if date_nanos <= now_nanos {
        0
    } else {
        ((date_nanos - now_nanos) / 1_000_000_000) as nat
    }
}

/// The wait that a `Retry-After` value asks for at a time: a number of
/// seconds, or a date, read as the time until then.
pub open spec fn retry_after(value: Seq<char>, now_nanos: int) -> Option<u64> {
    let trimmed = text::trim(value, Trim::Space);
    if text::unsigned(trimmed) matches Some(n) && n <= u64::MAX {
        Some(capped_secs(text::unsigned(trimmed)->0))
    } else {
        match mtime::http_date(trimmed) {
            Some(date) => Some(capped_secs(secs_until(date as nat, now_nanos))),
            None => None,
        }
    }
}

/// The wait that a `Retry-After` value asks for at a time, in seconds.
pub fn parse_retry_after_at(value: &str, now_nanos: i128) -> (r: Option<u64>)
    ensures
        r == retry_after(value@, now_nanos as int),
{
    let trimmed = text::trim_both(&text::chars_of(value), Trim::Space);
    if let Some(secs) = text::parse_u64(&trimmed) {
        return if secs <= MAX_RETRY_AFTER_SECS {
            Some(secs)
        } else {
            Some(MAX_RETRY_AFTER_SECS)
        };
    }
    match parse_http_date(&text::text_of(&trimmed)) {
        Some(date) => {
            let date_nanos: i128 = date as i128 * 1_000_000_000;
            if date_nanos <= now_nanos {
                return Some(0);
            }
            match date_nanos.checked_sub(now_nanos) {
                Some(left) => {
                    let secs: u128 = left as u128 / 1_000_000_000;
                    if secs <= MAX_RETRY_AFTER_SECS as u128 {
                        Some(secs as u64)
                    } else {
                        Some(MAX_RETRY_AFTER_SECS)
                    }
                },
                None => Some(MAX_RETRY_AFTER_SECS),
            }
        },
        None => None,
    }
}

/// The wait that a `Retry-After` value asks for now, in seconds: a number as
/// it is, a date as the time until then, neither beyond the cap. Nothing
/// where the value is neither.
pub fn parse_retry_after(value: &str) -> (r: Option<u64>)
    ensures
        exists|now: int| clock::is_reading(now) && r == #[trigger] retry_after(value@, now),
        r matches Some(secs) ==> secs <= MAX_RETRY_AFTER_SECS,
{
    let now: i128 = clock::now_nanos();
    let r = parse_retry_after_at(value, now);
    assert(r == retry_after(value@, now as int));
    r
}

/// No server makes a client wait longer than the cap.
pub proof fn requested_waits_are_capped(value: Seq<char>, now_nanos: int)
    ensures
        retry_after(value, now_nanos) matches Some(secs) ==> secs <= MAX_RETRY_AFTER_SECS,
{
}

/// A number of seconds within the cap is waited as it is, whatever the time.
pub proof fn written_seconds_are_honored(secs: nat, now_nanos: int)
    requires
        secs <= MAX_RETRY_AFTER_SECS,
    ensures
        retry_after(text::decimal(secs), now_nanos) == Some(secs as u64),
{
    text::reading_a_written_number(secs);
    let s = text::decimal(secs);
    text::lemma_decimal(secs);
    assert(text::is_digit(s[0]));
    assert(text::is_digit(s[s.len() - 1]));
    assert(text::trim_front(s, Trim::Space) == s);
    assert(text::trim_back(s, Trim::Space) == s);
}

// ---------------------------------------------------------------------------
// How often to retry
// ---------------------------------------------------------------------------

/// How often a transfer was retried.
#[derive(Debug)]
pub struct RetryTracker {
    pub count: u32,
}

/// What follows a failed attempt.
#[derive(Debug)]
pub enum RetryStep {
    /// Wait, then try again: the number of the retry, how long to wait in
    /// milliseconds, and whether the server asked for that.
    Wait { attempt: u32, delay_ms: u128, server_requested: bool },
    /// It was tried often enough.
    GiveUp(IaGetError),
}

/// What giving up reads.
pub open spec fn retries_exceeded(kind: Seq<char>, detail: Seq<char>) -> Seq<char> {
    kind + ": "@ + detail + " (maximum retries 10 exceeded)"@
}

/// The delay before a retry, in milliseconds: what the server asked for, or
/// the one that grows.
pub open spec fn delay_of(retry_after_secs: Option<u64>, attempt: nat, seed: u64) -> nat {
    match retry_after_secs {
        Some(secs) => secs as nat * 1000,
        None => backoff(attempt, seed),
    }
}

/// Whether a step is what follows the failure that makes it the `count`-th,
/// for a seed.
pub open spec fn is_step(
    step: RetryStep,
    count: u32,
    kind: Seq<char>,
    detail: Seq<char>,
    retry_after_secs: Option<u64>,
    seed: u64,
) -> bool {
    if count > MAX_RETRIES {
        step matches RetryStep::GiveUp(e) && e.is_network(retries_exceeded(kind, detail))
    } else {
        step matches RetryStep::Wait { attempt, delay_ms, server_requested } && attempt == count
            && delay_ms == delay_of(retry_after_secs, count as nat, seed) && server_requested
            == retry_after_secs is Some
    }
}

impl RetryTracker {
    /// Nothing was retried yet.
    pub fn new() -> (r: Self)
        ensures
            r.count == 0,
    {
        RetryTracker { count: 0 }
    }

    /// Records a failed attempt, and says what follows, for a seed.
    pub fn record_with_seed(
        &mut self,
        kind: &str,
        detail: &str,
        retry_after_secs: Option<u64>,
        seed: u64,
    ) -> (r: RetryStep)
        requires
            old(self).count < u32::MAX,
        ensures
            final(self).count == old(self).count + 1,
            is_step(r, final(self).count, kind@, detail@, retry_after_secs, seed),
    {
        self.count = self.count + 1;
        if self.count > MAX_RETRIES {
            let mut message = text::concat(kind, ": ");
            message.append(detail);
            message.append(" (maximum retries 10 exceeded)");
            return RetryStep::GiveUp(IaGetError::Network { detail: message, source: None });
        }
        let delay_ms: u128 = match retry_after_secs {
            Some(secs) => secs as u128 * 1000,
            None => backoff_with_seed(self.count, seed) as u128,
        };
        RetryStep::Wait {
            attempt: self.count,
            delay_ms,
            server_requested: retry_after_secs.is_some(),
        }
    }

    /// Records a failed attempt, and says what follows: a wait, as long as
    /// the server asked for or else growing and jittered by the clock, until
    /// the retries are used up.
    pub fn record(&mut self, kind: &str, detail: &str, retry_after_secs: Option<u64>) -> (r:
        RetryStep)
        requires
            old(self).count < u32::MAX,
        ensures
            final(self).count == old(self).count + 1,
            exists|seed: u64|
                #[trigger] is_step(
                    r,
                    final(self).count,
                    kind@,
                    detail@,
                    retry_after_secs,
                    seed,
                ),
    {
        let seed: u64 = seed_from_clock();
        self.record_with_seed(kind, detail, retry_after_secs, seed)
    }
}

// ---------------------------------------------------------------------------
// Waiting
// ---------------------------------------------------------------------------

/// A wait that looks for a request to stop every so often.
#[derive(Debug)]
pub struct Wait {
    pub remaining_ms: u128,
}

/// What a wait does next.
#[derive(Clone, Copy, Debug, PartialEq, Eq, Structural)]
pub enum WaitStep {
    /// Sleep for so many milliseconds, and look again.
    Sleep(u128),
    /// The wait is over.
    Over,
    /// The user asked to stop.
    Interrupted,
}

impl Wait {
    /// The next step of the wait: none is longer than the interval at which
    /// it looks for a request to stop, and together they last as long as it.
    pub fn next(&mut self, running: bool) -> (r: WaitStep)
        ensures
            !running ==> r == WaitStep::Interrupted && final(self).remaining_ms
                == old(self).remaining_ms,
            running && old(self).remaining_ms == 0 ==> r == WaitStep::Over
                && final(self).remaining_ms == 0,
            running && old(self).remaining_ms > 0 ==> (r matches WaitStep::Sleep(ms) && 0 < ms
                <= INTERRUPT_CHECK_INTERVAL_MS && final(self).remaining_ms + ms
                == old(self).remaining_ms && (ms == INTERRUPT_CHECK_INTERVAL_MS
                || final(self).remaining_ms == 0)),
    {
        if !running {
            return WaitStep::Interrupted;
        }
        if self.remaining_ms == 0 {
            return WaitStep::Over;
        }
        let slice: u128 = if self.remaining_ms < INTERRUPT_CHECK_INTERVAL_MS {
            self.remaining_ms
        } else {
            INTERRUPT_CHECK_INTERVAL_MS
        };
        self.remaining_ms = self.remaining_ms - slice;
        WaitStep::Sleep(slice)
    }
}

// ---------------------------------------------------------------------------
// What retries promise
// ---------------------------------------------------------------------------

/// A `Retry-After` value of digits, with or without white space around it,
/// asks for that many seconds, or for 900 where it is more.
pub proof fn seconds_are_waited_as_written(
    n: nat,
    front: Seq<char>,
    back: Seq<char>,
    now_nanos: int,
)
    requires
        n <= u64::MAX,
        forall|i: int| 0 <= i < front.len() ==> #[trigger] front[i] == ' ',
        forall|i: int| 0 <= i < back.len() ==> #[trigger] back[i] == ' ',
    ensures
        retry_after(front + text::decimal(n) + back, now_nanos) == Some(
            (if n <= 900 {
                n
            } else {
                900
            }) as u64,
        ),
{
    let s = text::decimal(n);
    text::reading_a_written_number(n);
    text::lemma_decimal(n);
    assert(text::is_digit(s[0]));
    assert(text::is_digit(s[s.len() - 1]));
    text::trimming_leaves_the_middle(front, s, back, Trim::Space);
}

/// A `Retry-After` value that reads as a date asks for the whole seconds
/// until then: none where the date has passed, and 900 at most.
pub proof fn dates_are_waited_for(value: Seq<char>, date: u64, now_nanos: int)
    requires
        value.len() > 0,
        value.first() as u32 > 0x40 && value.first() as u32 <= 0x7e,
        value.last() as u32 > 0x40 && value.last() as u32 <= 0x7e,
        mtime::http_date(value) == Some(date),
    ensures
        retry_after(value, now_nanos) matches Some(secs) && secs <= 900 && ({
            let left = date * 1_000_000_000 - now_nanos;
            &&& left <= 0 ==> secs == 0
            &&& left >= 900 * 1_000_000_000 ==> secs == 900
            &&& 0 < left < 900 * 1_000_000_000 ==> secs * 1_000_000_000 <= left < (secs + 1)
                * 1_000_000_000
        }),
{
    text::trimmed_texts_stay(value, Trim::Space);
    assert(text::unsigned(value) is None) by {
        assert(!text::is_digit(value[0]));
    }
}

/// A `Retry-After` value that is neither a number nor a date asks for
/// nothing.
pub proof fn other_values_ask_for_nothing(value: Seq<char>, now_nanos: int)
    requires
        value.len() > 0 ==> !text::is_space(value.first()) && !text::is_space(value.last()),
        text::unsigned(value) is None,
        mtime::http_date(value) is None,
    ensures
        retry_after(value, now_nanos) is None,
{
    text::trimmed_texts_stay(value, Trim::Space);
}

/// The wait before a retry: exactly what the server asked for, or else five
/// seconds, twice as much each time, up to a minute, varied by a fifth. The
/// eleventh failure is the last.
pub proof fn retries_wait_as_promised(
    step: RetryStep,
    count: u32,
    kind: Seq<char>,
    detail: Seq<char>,
    retry_after_secs: Option<u64>,
    seed: u64,
)
    requires
        is_step(step, count, kind, detail, retry_after_secs, seed),
    ensures
        count <= 10 <==> step is Wait,
        count > 10 <==> step is GiveUp,
        step matches RetryStep::Wait { attempt, delay_ms, server_requested } ==> {
            &&& attempt == count
            &&& server_requested == retry_after_secs is Some
            &&& retry_after_secs matches Some(secs) ==> delay_ms == secs * 1000
            &&& retry_after_secs is None ==> {
                &&& count <= 1 ==> 4_000 <= delay_ms <= 6_000
                &&& count == 2 ==> 8_000 <= delay_ms <= 12_000
                &&& count == 3 ==> 16_000 <= delay_ms <= 24_000
                &&& count == 4 ==> 32_000 <= delay_ms <= 48_000
                &&& count >= 5 ==> 48_000 <= delay_ms <= 72_000
            }
        },
        step matches RetryStep::GiveUp(e) ==> (e matches IaGetError::Network {
            detail: d,
            source,
        } && source is None && d@ == kind + ": "@ + detail + " (maximum retries 10 exceeded)"@),
{
    backoff_stays_within_bounds(count as nat, seed);
}

/// Jitter takes the 41 percentages from 80 to 120, by the high bits of the
/// seed's successor in a linear congruential sequence.
pub proof fn jitter_follows_the_seed(value_ms: nat, seed: u64)
    requires
        value_ms * 120 <= u64::MAX,
    ensures
        ({
            let next = (seed * 6364136223846793005 + 1442695040888963407)
                % 0x1_0000_0000_0000_0000;
            let percent = 80 + next / 0x2_0000_0000 % 41;
            80 <= percent <= 120 && jittered(value_ms, seed) == value_ms * percent / 100
        }),
{
    let percent = jitter_percent(seed);
    assert(value_ms * percent <= value_ms * 120) by (nonlinear_arith)
        requires
            percent <= 120,
    ;
}

/// The seed of jitter is the low half of the clock's nanoseconds since the
/// epoch; before the epoch it does not depend on the clock.
pub proof fn seeds_come_from_the_clock(low: u64, high: nat, before: int, earlier: int)
    requires
        before < 0,
        earlier < 0,
    ensures
        seed_of(high * 0x1_0000_0000_0000_0000 + low) == low,
        seed_of(before) == seed_of(earlier),
{
}

} // verus!
