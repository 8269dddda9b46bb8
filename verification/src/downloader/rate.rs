//! The throughput limit: reading it, and pacing a transfer by it.

use crate::error::IaGetError;
use crate::text;
use crate::text::Trim;
use vstd::arithmetic::power2;
use vstd::prelude::*;

verus! {

// ---------------------------------------------------------------------------
// Reading a limit
// ---------------------------------------------------------------------------

/// A limit's number and the power of two that its suffix multiplies it by:
/// `K`, `M` or `G` in either case, with an optional `B`; a lone `B`, or
/// nothing, stands for bytes.
pub open spec fn number_and_scale(input: Seq<char>) -> (Seq<char>, nat) {
    let lower = text::lowered(input);
    let short = lower.take(lower.len() - 1);
    let shorter = lower.take(lower.len() - 2);
    if "kb"@.is_suffix_of(lower) {
        (shorter, 10)
    } else if "mb"@.is_suffix_of(lower) {
        (shorter, 20)
    } else if "gb"@.is_suffix_of(lower) {
        (shorter, 30)
    } else if "k"@.is_suffix_of(lower) {
        (short, 10)
    } else if "m"@.is_suffix_of(lower) {
        (short, 20)
    } else if "g"@.is_suffix_of(lower) {
        (short, 30)
    } else if "b"@.is_suffix_of(lower) {
        (short, 0)
    } else {
        (input, 0)
    }
}

/// The number that a limit starts with, still as text, without the suffix;
/// none where the limit is empty.
pub open spec fn rate_number_of(input: Seq<char>) -> Option<Seq<char>> {
    let trimmed = text::trim(input, Trim::Space);
    if trimmed.len() == 0 {
        None
    } else {
        Some(number_and_scale(trimmed).0)
    }
}

/// A double-precision number, given by its bits, is finite.
pub open spec fn is_finite(bits: u64) -> bool {
    bits / 0x10_0000_0000_0000 % 0x800 != 0x7ff
}

/// The whole number that the bits of a finite double multiply a power of two
/// by.
pub open spec fn significand(bits: u64) -> nat {
    let fraction = (bits % 0x10_0000_0000_0000) as nat;
    if bits / 0x10_0000_0000_0000 % 0x800 == 0 {
        fraction
    } else {
        fraction + 0x10_0000_0000_0000
    }
}

/// The power of two that the bits of a finite double multiply by.
pub open spec fn exponent(bits: u64) -> int {
    let raw = (bits / 0x10_0000_0000_0000 % 0x800) as int;
    if raw == 0 {
        -1074
    } else {
        raw - 1075
    }
}

/// A finite double is below zero.
pub open spec fn is_negative(bits: u64) -> bool {
    bits >= 0x8000_0000_0000_0000 && significand(bits) != 0
}

/// `m` times a power of two, rounded to the nearest whole number, halves up.
pub open spec fn scaled(m: nat, power: int) -> nat {
    if power >= 0 {
        m * power2::pow2(power as nat)
    } else {
        (m + power2::pow2((-power - 1) as nat)) / power2::pow2((-power) as nat)
    }
}

/// The bytes per second that a number with a scale stands for; at most what
/// 64 bits hold.
pub open spec fn bytes_per_sec(bits: u64, scale: nat) -> nat {
    let exact = scaled(significand(bits), exponent(bits) + scale);
    if exact <= u64::MAX {
        exact
    } else {
        u64::MAX as nat
    }
}

/// The bytes per second that a limit stands for, given the bits of the
/// double that its number reads as; none where it is refused.
pub open spec fn rate_of(input: Seq<char>, number: Option<u64>) -> Option<nat> {
    match (rate_number_of(input), number) {
        (Some(_), Some(bits)) => if is_finite(bits) && !is_negative(bits) {
            Some(bytes_per_sec(bits, number_and_scale(text::trim(input, Trim::Space)).1))
        } else {
            None
        },
        _ => None,
    }
}

proof fn lemma_lowered_trim(s: Seq<char>)
    ensures
        text::lowered(text::trim(s, Trim::Space)) == text::trim(text::lowered(s), Trim::Space),
{
    lemma_lowered_trim_front(s);
    lemma_lowered_trim_back(text::trim_front(s, Trim::Space));
}

proof fn lemma_lowered_trim_front(s: Seq<char>)
    ensures
        text::lowered(text::trim_front(s, Trim::Space)) == text::trim_front(
            text::lowered(s),
            Trim::Space,
        ),
    decreases s.len(),
{
    if s.len() > 0 {
        assert(Trim::Space.has(text::lower(s.first())) == Trim::Space.has(s.first()));
        if Trim::Space.has(s.first()) {
            lemma_lowered_trim_front(s.skip(1));
            assert(text::lowered(s.skip(1)) =~= text::lowered(s).skip(1));
        }
    }
}

proof fn lemma_lowered_trim_back(s: Seq<char>)
    ensures
        text::lowered(text::trim_back(s, Trim::Space)) == text::trim_back(
            text::lowered(s),
            Trim::Space,
        ),
    decreases s.len(),
{
    if s.len() > 0 {
        assert(Trim::Space.has(text::lower(s.last())) == Trim::Space.has(s.last()));
        if Trim::Space.has(s.last()) {
            lemma_lowered_trim_back(s.drop_last());
            assert(text::lowered(s.drop_last()) =~= text::lowered(s).drop_last());
        }
    }
}

/// The case of letters changes nothing: limits that agree but for case are
/// both empty, or have numbers that agree but for case, and stand for the
/// same where those read as the same.
pub proof fn letter_case_changes_nothing(a: Seq<char>, b: Seq<char>, number: Option<u64>)
    requires
        text::lowered(a) == text::lowered(b),
    ensures
        rate_number_of(a) is Some <==> rate_number_of(b) is Some,
        rate_number_of(a) is Some ==> text::lowered(rate_number_of(a)->0) == text::lowered(
            rate_number_of(b)->0,
        ),
        rate_of(a, number) == rate_of(b, number),
{
    lemma_lowered_trim(a);
    lemma_lowered_trim(b);
    let x = text::trim(a, Trim::Space);
    let y = text::trim(b, Trim::Space);
    assert(text::lowered(x).len() == x.len());
    assert(text::lowered(y).len() == y.len());
}

proof fn lemma_trim_front_push(s: Seq<char>, c: char)
    requires
        s.len() > 0,
        !Trim::Space.has(s.last()),
    ensures
        text::trim_front(s.push(c), Trim::Space) == text::trim_front(s, Trim::Space).push(c),
        text::trim_front(s, Trim::Space).len() > 0,
        text::trim_front(s, Trim::Space).last() == s.last(),
    decreases s.len(),
{
    if Trim::Space.has(s.first()) {
        assert(s.skip(1).last() == s.last());
        lemma_trim_front_push(s.skip(1), c);
        assert(s.push(c).skip(1) =~= s.skip(1).push(c));
    }
}

proof fn lemma_ending(ending: Seq<char>, s: Seq<char>)
    requires
        ending.len() > 0,
    ensures
        ending.is_suffix_of(s) ==> s.last() == ending.last(),
        ending.is_suffix_of(s) && ending.len() == 2 ==> s[s.len() - 2] == ending[0],
{
    if ending.is_suffix_of(s) {
        let tail = s.subrange(s.len() - ending.len(), s.len() as int);
        assert(tail == ending);
        assert(tail.last() == s.last());
        assert(tail[0] == s[s.len() - ending.len()]);
    }
}

/// A `B` behind `K`, `M` or `G`, in either case, changes nothing: the number
/// is the same text, and stands for the same.
pub proof fn added_b_changes_nothing(input: Seq<char>, b: char, number: Option<u64>)
    requires
        input.len() > 0,
        text::lower(input.last()) == 'k' || text::lower(input.last()) == 'm' || text::lower(
            input.last(),
        ) == 'g',
        b == 'B' || b == 'b',
    ensures
        rate_number_of(input.push(b)) == rate_number_of(input),
        rate_of(input.push(b), number) == rate_of(input, number),
{
    lemma_trim_front_push(input, b);
    let x = text::trim(input, Trim::Space);
    assert(text::trim(input.push(b), Trim::Space) == x.push(b));
    let lower = text::lowered(x);
    let longer = text::lowered(x.push(b));
    assert(text::lower(b) == 'b');
    assert(longer =~= lower.push('b'));
    assert(lower.take(lower.len() - 1) =~= longer.take(longer.len() - 2));
    reveal_strlit("kb");
    reveal_strlit("mb");
    reveal_strlit("gb");
    reveal_strlit("k");
    reveal_strlit("m");
    reveal_strlit("g");
    reveal_strlit("b");
    let last = lower.last();
    assert(lower.skip(lower.len() - 1) =~= seq![last]);
    assert(longer.skip(longer.len() - 2) =~= seq![last, 'b']);
    assert("kb"@ =~= seq!['k', 'b']);
    assert("mb"@ =~= seq!['m', 'b']);
    assert("gb"@ =~= seq!['g', 'b']);
    assert("k"@ =~= seq!['k']);
    assert("m"@ =~= seq!['m']);
    assert("g"@ =~= seq!['g']);
    assert(last == 'k' ==> "kb"@.is_suffix_of(longer) && "k"@.is_suffix_of(lower));
    assert(last == 'm' ==> "mb"@.is_suffix_of(longer) && "m"@.is_suffix_of(lower));
    assert(last == 'g' ==> "gb"@.is_suffix_of(longer) && "g"@.is_suffix_of(lower));
    lemma_ending("kb"@, longer);
    lemma_ending("mb"@, longer);
    lemma_ending("kb"@, lower);
    lemma_ending("mb"@, lower);
    lemma_ending("gb"@, lower);
    lemma_ending("k"@, lower);
    lemma_ending("m"@, lower);
}

/// What the error for a limit without a number reads.
pub open spec fn no_number(input: Seq<char>) -> Seq<char> {
    "invalid number in rate limit "@ + text::quoted(input)
        + " (expected e.g. \"1M\", \"512K\" or bytes/second)"@
}

/// A row without the ending that a test found.
fn without_ending(lower: &Vec<char>, n: usize) -> (r: String)
    requires
        n <= lower.len(),
    ensures
        r@ == lower@.take(lower@.len() - n),
{
    assert(lower@.subrange(0, lower@.len() - n) =~= lower@.take(lower@.len() - n));
    text::text_between(lower, 0, lower.len() - n)
}

/// Splits a limit into its number and the power of two of its suffix.
fn split_suffix(input: &Vec<char>) -> (r: (String, u32))
    ensures
        r.0@ == number_and_scale(input@).0,
        r.1 == number_and_scale(input@).1,
        r.1 <= 30,
{
    proof {
        reveal_strlit("kb");
        reveal_strlit("mb");
        reveal_strlit("gb");
        reveal_strlit("k");
        reveal_strlit("m");
        reveal_strlit("g");
        reveal_strlit("b");
    }
    let lower = text::to_lower_all(input);
    if text::ends_with(&lower, "kb") {
        (without_ending(&lower, 2), 10)
    } else if text::ends_with(&lower, "mb") {
        (without_ending(&lower, 2), 20)
    } else if text::ends_with(&lower, "gb") {
        (without_ending(&lower, 2), 30)
    } else if text::ends_with(&lower, "k") {
        (without_ending(&lower, 1), 10)
    } else if text::ends_with(&lower, "m") {
        (without_ending(&lower, 1), 20)
    } else if text::ends_with(&lower, "g") {
        (without_ending(&lower, 1), 30)
    } else if text::ends_with(&lower, "b") {
        (without_ending(&lower, 1), 0)
    } else {
        (text::text_of(input), 0)
    }
}

/// The number that a limit starts with, as text, for the caller to read as a
/// double-precision number.
pub fn rate_number(input: &str) -> (r: Option<String>)
    ensures
        text::maybe(r) == rate_number_of(input@),
{
    let trimmed = text::trim_both(&text::chars_of(input), Trim::Space);
    if trimmed.len() == 0 {
        return None;
    }
    Some(split_suffix(&trimmed).0)
}

/// Two to the power of `n`.
fn power_of_two(n: u32) -> (r: u128)
    requires
        n <= 64,
    ensures
        r == power2::pow2(n as nat),
{
    let mut r: u128 = 1;
    let mut i: u32 = 0;
    proof {
        power2::lemma2_to64();
    }
    while i < n
        invariant
            i <= n <= 64,
            r == power2::pow2(i as nat),
        decreases n - i,
    {
        proof {
            power2::lemma_pow2_unfold((i + 1) as nat);
            power2::lemma2_to64();
            power2::lemma2_to64_rest();
            lemma_pow2_bound(i as nat, 64);
        }
        r = r * 2;
        i += 1;
    }
    r
}

proof fn lemma_pow2_bound(a: nat, b: nat)
    requires
        a <= b,
    ensures
        power2::pow2(a) <= power2::pow2(b),
{
    if a < b {
        power2::lemma_pow2_strictly_increases(a, b);
    }
}

/// `m` times a power of two, rounded, and cut to 64 bits.
fn scale_number(m: u64, power: i64) -> (r: u64)
    requires
        m < 0x20_0000_0000_0000,
        power <= 1100,
        power >= -1100,
    ensures
        r == if scaled(m as nat, power as int) <= u64::MAX {
            scaled(m as nat, power as int)
        } else {
            u64::MAX as nat
        },
{
    proof {
        power2::lemma2_to64();
        power2::lemma2_to64_rest();
    }
    if power >= 0 {
        if m == 0 {
            assert(0 * power2::pow2(power as nat) == 0) by (nonlinear_arith);
            return 0;
        }
        if power > 64 {
            proof {
                lemma_pow2_bound(64, power as nat);
                assert(m * power2::pow2(power as nat) >= power2::pow2(64)) by (nonlinear_arith)
                    requires
                        m >= 1,
                        power2::pow2(power as nat) >= power2::pow2(64),
                ;
            }
            return u64::MAX;
        }
        let factor: u128 = power_of_two(power as u32);
        proof {
            lemma_pow2_bound(power as nat, 64);
            assert(m * factor <= 0x20_0000_0000_0000 * 0x1_0000_0000_0000_0000) by (nonlinear_arith)
                requires
                    m <= 0x20_0000_0000_0000,
                    factor <= 0x1_0000_0000_0000_0000,
            ;
        }
        let exact: u128 = m as u128 * factor;
        if exact > u64::MAX as u128 {
            u64::MAX
        } else {
            exact as u64
        }
    } else {
        let down: i64 = -power;
        if down > 60 {
            proof {
                // The number is below half of the divisor, so it rounds to zero.
                lemma_pow2_bound(60, (down - 1) as nat);
                power2::lemma_pow2_unfold(down as nat);
                let half = power2::pow2((down - 1) as nat);
                assert(m < half);
                assert((m as nat + half) / (2 * half) == 0) by (nonlinear_arith)
                    requires
                        0 <= m < half,
                ;
            }
            return 0;
        }
        let half: u128 = power_of_two((down - 1) as u32);
        let whole: u128 = power_of_two(down as u32);
        proof {
            lemma_pow2_bound((down - 1) as nat, 64);
            lemma_pow2_bound(0, down as nat);
            assert((m + half) / (whole as int) <= m + half) by (nonlinear_arith)
                requires
                    m + half >= 0,
                    whole >= 1,
            ;
            lemma_pow2_bound((down - 1) as nat, 59);
        }
        ((m as u128 + half) / whole) as u64
    }
}

/// Reads a limit in bytes per second: a number with an optional `K`, `M` or
/// `G` suffix, optionally followed by `B`, in either case. Zero stands for
/// no limit.
///
/// `number` holds the bits of the double-precision number that the text in
/// front of the suffix reads as, or nothing where it reads as none.
pub fn parse_rate(input: &str, number: Option<u64>) -> (r: Result<u64, IaGetError>)
    ensures
        match rate_number_of(input@) {
            None => r matches Err(e) && (e matches IaGetError::InvalidRate(text) && text@ == input@),
            Some(_) => match number {
                None => r matches Err(e) && (e matches IaGetError::InvalidRate(text) && text@
                    == no_number(input@)),
                Some(bits) => if !is_finite(bits) || is_negative(bits) {
                    r matches Err(e) && (e matches IaGetError::InvalidRate(text) && text@
                        == input@)
                } else {
                    r matches Ok(rate) && rate == bytes_per_sec(
                        bits,
                        number_and_scale(text::trim(input@, Trim::Space)).1,
                    )
                },
            },
        },
        rate_of(input@, number) == (match r {
            Ok(rate) => Some(rate as nat),
            Err(_) => None,
        }),
{
    let trimmed = text::trim_both(&text::chars_of(input), Trim::Space);
    if trimmed.len() == 0 {
        return Err(IaGetError::InvalidRate(input.to_owned()));
    }
    let (_, scale) = split_suffix(&trimmed);
    let bits: u64 = match number {
        Some(bits) => bits,
        None => {
            let mut message = text::concat("invalid number in rate limit ", &text::quote(input));
            message.append(" (expected e.g. \"1M\", \"512K\" or bytes/second)");
            return Err(IaGetError::InvalidRate(message));
        },
    };
    let raw: u64 = bits / 0x10_0000_0000_0000 % 0x800;
    let fraction: u64 = bits % 0x10_0000_0000_0000;
    if raw == 0x7ff {
        return Err(IaGetError::InvalidRate(input.to_owned()));
    }
    let m: u64 = if raw == 0 {
        fraction
    } else {
        fraction + 0x10_0000_0000_0000
    };
    if bits >= 0x8000_0000_0000_0000 && m != 0 {
        return Err(IaGetError::InvalidRate(input.to_owned()));
    }
    let power: i64 = if raw == 0 {
        -1074
    } else {
        raw as i64 - 1075
    };
    Ok(scale_number(m, power + scale as i64))
}

// ---------------------------------------------------------------------------
// Pacing
// ---------------------------------------------------------------------------

/// Holds a transfer to a throughput: each piece extends a schedule by the
/// time that its bytes may take, and the transfer waits while the schedule
/// is ahead of the clock.
#[derive(Debug)]
pub struct RateLimiter {
    /// The limit in bytes per second; none, or zero, for no limit.
    pub limit: Option<u64>,
    /// When the transfer is scheduled to have brought its bytes so far, in
    /// nanoseconds of a steady clock.
    pub deadline: u128,
}

/// The schedule after a piece that arrives at `now`: its budget later, or
/// `now` where that is later still, for time that was not used is not saved
/// up.
pub open spec fn paced(deadline: nat, budget: nat, now: nat) -> nat {
    if deadline + budget > now {
        deadline + budget
    } else {
        now
    }
}

impl RateLimiter {
    /// Whether a piece has to be paced at all.
    pub open spec fn limits(&self, bytes: u64) -> bool {
        bytes > 0 && (self.limit matches Some(limit) && limit > 0)
    }

    /// A limiter whose schedule starts at `now`.
    pub fn new(limit: Option<u64>, now: u128) -> (r: Self)
        ensures
            r.limit == limit,
            r.deadline == now,
    {
        RateLimiter { limit, deadline: now }
    }

    /// Whether a piece has to be paced at all.
    pub fn is_limiting(&self, bytes: u64) -> (r: bool)
        ensures
            r == self.limits(bytes),
    {
        match self.limit {
            Some(limit) => limit > 0 && bytes > 0,
            None => false,
        }
    }

    /// How long to wait after a piece, in nanoseconds. `budget` is the time
    /// that its bytes may take at the limit, `now` the time on the clock.
    ///
    /// A piece that took longer than its budget resets the schedule: time
    /// that was not used is not saved up.
    pub fn pace(&mut self, bytes: u64, budget: u128, now: u128) -> (wait: u128)
        requires
            old(self).deadline + budget <= u128::MAX,
        ensures
            final(self).limit == old(self).limit,
            !old(self).limits(bytes) ==> wait == 0 && final(self).deadline == old(self).deadline,
            old(self).limits(bytes) ==> final(self).deadline == paced(
                old(self).deadline as nat,
                budget as nat,
                now as nat,
            ) && wait == final(self).deadline - now,
    {
        if !self.is_limiting(bytes) {
            return 0;
        }
        let next: u128 = self.deadline + budget;
        if next > now {
            self.deadline = next;
            next - now
        } else {
            self.deadline = now;
            0
        }
    }
}

/// The schedule after pieces with the given budgets, each of which arrives
/// at the given time.
pub open spec fn schedule(start: nat, budgets: Seq<nat>, arrivals: Seq<nat>) -> nat
    decreases budgets.len(),
{
    if budgets.len() == 0 {
        start
    } else {
        paced(
            schedule(start, budgets.drop_last(), arrivals.drop_last()),
            budgets.last(),
            arrivals.last(),
        )
    }
}

/// The sum of numbers.
pub open spec fn total(list: Seq<nat>) -> nat
    decreases list.len(),
{
    if list.len() == 0 {
        0
    } else {
        total(list.drop_last()) + list.last()
    }
}

/// A paced transfer stays at or below the limit: the schedule that it waits
/// for is never before its start plus the time that all its bytes may take.
pub proof fn pacing_keeps_the_limit(start: nat, budgets: Seq<nat>, arrivals: Seq<nat>)
    requires
        budgets.len() == arrivals.len(),
    ensures
        schedule(start, budgets, arrivals) >= start + total(budgets),
        budgets.len() > 0 ==> schedule(start, budgets, arrivals) >= arrivals.last(),
    decreases budgets.len(),
{
    if budgets.len() > 0 {
        pacing_keeps_the_limit(start, budgets.drop_last(), arrivals.drop_last());
    }
}

/// A number is multiplied by the power of two of its suffix, in either case:
/// `K` by the tenth, `M` by the twentieth, `G` by the thirtieth, `B` and none
/// by no other than one. White space around it is nothing.
pub proof fn suffixes_multiply(front: Seq<char>, n: Seq<char>, c: char, back: Seq<char>, bits: u64)
    requires
        forall|i: int| 0 <= i < front.len() ==> Trim::Space.has(#[trigger] front[i]),
        forall|i: int| 0 <= i < back.len() ==> Trim::Space.has(#[trigger] back[i]),
        n.len() > 0,
        !Trim::Space.has(n.first()),
        '0' <= n.last() <= '9' || n.last() == '.',
        is_finite(bits),
        !is_negative(bits),
    ensures
        rate_number_of(front + n + back) == Some(n),
        rate_of(front + n + back, Some(bits)) == Some(bytes_per_sec(bits, 0)),
        (c == 'k' || c == 'K') ==> rate_of(front + n.push(c) + back, Some(bits)) == Some(
            bytes_per_sec(bits, 10),
        ),
        (c == 'm' || c == 'M') ==> rate_of(front + n.push(c) + back, Some(bits)) == Some(
            bytes_per_sec(bits, 20),
        ),
        (c == 'g' || c == 'G') ==> rate_of(front + n.push(c) + back, Some(bits)) == Some(
            bytes_per_sec(bits, 30),
        ),
        (c == 'b' || c == 'B') ==> rate_of(front + n.push(c) + back, Some(bits)) == Some(
            bytes_per_sec(bits, 0),
        ),
        (c == 'k' || c == 'K' || c == 'm' || c == 'M' || c == 'g' || c == 'G' || c == 'b' || c
            == 'B') ==> rate_number_of(front + n.push(c) + back) == Some(text::lowered(n)),
{
    reveal_strlit("kb");
    reveal_strlit("mb");
    reveal_strlit("gb");
    reveal_strlit("k");
    reveal_strlit("m");
    reveal_strlit("g");
    reveal_strlit("b");
    text::white_space_is_that_of_unicode(n.last());
    text::trimming_leaves_the_middle(front, n, back, Trim::Space);
    let lower = text::lowered(n);
    assert(lower.last() == text::lower(n.last()));
    assert(lower.last() == n.last());
    lemma_ending("kb"@, lower);
    lemma_ending("mb"@, lower);
    lemma_ending("gb"@, lower);
    lemma_ending("k"@, lower);
    lemma_ending("m"@, lower);
    lemma_ending("g"@, lower);
    lemma_ending("b"@, lower);
    if c == 'k' || c == 'K' || c == 'm' || c == 'M' || c == 'g' || c == 'G' || c == 'b' || c
        == 'B' {
        text::white_space_is_that_of_unicode(c);
        assert(n.push(c).first() == n.first());
        text::trimming_leaves_the_middle(front, n.push(c), back, Trim::Space);
        let longer = text::lowered(n.push(c));
        assert(longer =~= lower.push(text::lower(c)));
        assert(longer[longer.len() - 2] == n.last());
        assert(longer.take(longer.len() - 1) =~= lower);
        assert(longer.skip(longer.len() - 1) =~= seq![text::lower(c)]);
        assert("k"@ =~= seq!['k']);
        assert("m"@ =~= seq!['m']);
        assert("g"@ =~= seq!['g']);
        assert("b"@ =~= seq!['b']);
        lemma_ending("kb"@, longer);
        lemma_ending("mb"@, longer);
        lemma_ending("gb"@, longer);
        lemma_ending("k"@, longer);
        lemma_ending("m"@, longer);
        lemma_ending("g"@, longer);
        lemma_ending("b"@, longer);
    }
}

/// A limit is refused exactly where it is empty but for white space, where
/// it has no number, or where that is infinite, no number at all, or below
/// zero.
pub proof fn limits_are_refused_with_cause(input: Seq<char>, number: Option<u64>)
    ensures
        rate_of(input, number) is None <==> (text::trim(input, Trim::Space).len() == 0 || number
            is None || !is_finite(number->0) || is_negative(number->0)),
        rate_number_of(input) is None <==> text::trim(input, Trim::Space).len() == 0,
{
}

/// The bits of a double are a sign, eleven bits of exponent and fifty-two of
/// fraction: with an exponent between, the fraction follows a one; with none,
/// it stands alone; with the highest, the number is infinite or none.
pub proof fn doubles_are_read_by_their_parts(sign: nat, raw: nat, fraction: nat, bits: u64)
    requires
        sign < 2,
        raw < 2048,
        fraction < 0x10_0000_0000_0000,
        bits == sign * 0x8000_0000_0000_0000 + raw * 0x10_0000_0000_0000 + fraction,
    ensures
        is_finite(bits) <==> raw != 2047,
        raw > 0 ==> significand(bits) == 0x10_0000_0000_0000 + fraction && exponent(bits) == raw
            - 1075,
        raw == 0 ==> significand(bits) == fraction && exponent(bits) == -1074,
        is_negative(bits) <==> sign == 1 && (raw > 0 || fraction > 0),
{
    let upper = (sign * 2048 + raw) as int;
    assert(bits == upper * 0x10_0000_0000_0000 + fraction);
    assert(bits / 0x10_0000_0000_0000 == upper);
    assert(bits % 0x10_0000_0000_0000 == fraction);
    assert(upper % 2048 == raw);
}

/// A scaled number is the exact one where that is whole, and else the nearest
/// whole one, the higher of two that are as near; it stands as it is up to
/// what 64 bits hold, and for the highest of those beyond.
pub proof fn limits_are_rounded_to_the_nearest(m: nat, up: nat, down: nat, bits: u64, scale: nat)
    requires
        down > 0,
    ensures
        scaled(m, up as int) == m * power2::pow2(up),
        2 * (scaled(m, -down) * power2::pow2(down)) <= 2 * m + power2::pow2(down),
        2 * m + power2::pow2(down) < 2 * ((scaled(m, -down) + 1) * power2::pow2(down)),
        bytes_per_sec(bits, scale) <= 0xffff_ffff_ffff_ffff,
        scaled(significand(bits), exponent(bits) + scale) <= 0xffff_ffff_ffff_ffff ==> bytes_per_sec(
            bits,
            scale,
        ) == scaled(significand(bits), exponent(bits) + scale),
        scaled(significand(bits), exponent(bits) + scale) > 0xffff_ffff_ffff_ffff ==> bytes_per_sec(
            bits,
            scale,
        ) == 0xffff_ffff_ffff_ffff,
{
    power2::lemma_pow2_pos(down);
    power2::lemma_pow2_unfold(down);
    let whole = power2::pow2(down);
    let half = power2::pow2((down - 1) as nat);
    let r = scaled(m, -down);
    assert(r * whole <= m + half && m + half < (r + 1) * whole) by (nonlinear_arith)
        requires
            whole > 0,
            r == (m + half) / whole,
    ;
}

/// A whole number with a suffix is that many times the suffix's bytes: 1024
/// for `K`, its square for `M`, its cube for `G`.
pub proof fn whole_limits_are_exact(bits: u64, number: nat, down: nat)
    requires
        exponent(bits) == -down,
        significand(bits) == number * power2::pow2(down),
        number * 0x4000_0000 <= 0xffff_ffff_ffff_ffff,
    ensures
        bytes_per_sec(bits, 0) == number,
        bytes_per_sec(bits, 10) == number * 1024,
        bytes_per_sec(bits, 20) == number * 1024 * 1024,
        bytes_per_sec(bits, 30) == number * 1024 * 1024 * 1024,
{
    power2::lemma2_to64();
    lemma_whole_scaled(number, down, 0);
    lemma_whole_scaled(number, down, 10);
    lemma_whole_scaled(number, down, 20);
    lemma_whole_scaled(number, down, 30);
}

proof fn lemma_whole_scaled(number: nat, down: nat, scale: nat)
    ensures
        scaled(number * power2::pow2(down), scale - down) == number * power2::pow2(scale),
{
    let m = number * power2::pow2(down);
    if scale >= down {
        let up = (scale - down) as nat;
        power2::lemma_pow2_adds(down, up);
        let a = power2::pow2(down);
        let b = power2::pow2(up);
        assert((number * a) * b == number * (a * b)) by (nonlinear_arith);
    } else {
        let left = (down - scale) as nat;
        power2::lemma_pow2_adds(scale, left);
        power2::lemma_pow2_pos(left);
        power2::lemma_pow2_unfold(left);
        let a = power2::pow2(scale);
        let b = power2::pow2(left);
        let half = power2::pow2((left - 1) as nat);
        power2::lemma_pow2_pos((left - 1) as nat);
        let whole = number * a;
        assert(m == whole * b) by (nonlinear_arith)
            requires
                m == number * (a * b),
                whole == number * a,
        ;
        assert((m + half) / b == whole) by (nonlinear_arith)
            requires
                m == whole * b,
                0 <= half < b,
        ;
    }
}

/// The schedule after a piece is the later of two times: the schedule before
/// plus the piece's budget, and the time that the piece arrived. So no wait
/// is longer than the budget where the transfer is on schedule.
pub proof fn waits_are_no_longer_than_needed(deadline: nat, budget: nat, now: nat)
    ensures
        now <= deadline + budget ==> paced(deadline, budget, now) == deadline + budget,
        now >= deadline + budget ==> paced(deadline, budget, now) == now,
        deadline <= now ==> paced(deadline, budget, now) - now <= budget,
{
}

/// A piece is paced exactly where it holds bytes and a limit other than zero
/// is set.
pub proof fn zero_is_no_limit(deadline: u128, limit: u64, bytes: u64)
    ensures
        (RateLimiter { limit: Some(limit), deadline }).limits(bytes) <==> limit != 0 && bytes != 0,
        !(RateLimiter { limit: None, deadline }).limits(bytes),
{
}

} // verus!
