//! What is shown on the terminal: sizes and durations in words, and the
//! banner and status lines of a download.

use crate::styled;
use crate::styled::{Line, Span, Style};
use crate::text;
use vstd::arithmetic::power2;
use vstd::prelude::*;

verus! {

/// The quotient rounded to the nearest whole number, halves to the even one.
pub open spec fn half_even(a: nat, b: nat) -> nat {
    let q = a / b;
    let r = a % b;
    if 2 * r < b || (2 * r == b && q % 2 == 0) {
        q
    } else {
        q + 1
    }
}

/// The distance between the double-precision numbers around `n`: one below
/// 2^53, and twice as much for each doubling.
pub open spec fn double_step(n: nat) -> nat
    decreases n,
{
    if n < 0x20_0000_0000_0000 {
        1
    } else {
        2 * double_step(n / 2)
    }
}

/// `n` as a double-precision number.
pub open spec fn as_double(n: nat) -> nat {
    half_even(n, double_step(n)) * double_step(n)
}

/// A number of hundredths with two decimals.
pub open spec fn two_decimals(hundredths: nat) -> Seq<char> {
    text::decimal(hundredths / 100) + "."@ + seq![
        text::digit(hundredths / 10 % 10),
        text::digit(hundredths % 10),
    ]
}

/// A size in a unit of `unit` bytes, with two decimals.
pub open spec fn in_unit(size: nat, unit: nat) -> Seq<char> {
    two_decimals(half_even(as_double(size) * 100, unit))
}

/// A size in words.
pub open spec fn size_words(size: nat) -> Seq<char> {
    if size < 0x400 {
        text::decimal(size) + "B"@
    } else if size < 0x10_0000 {
        in_unit(size, 0x400) + "KB"@
    } else if size < 0x4000_0000 {
        in_unit(size, 0x10_0000) + "MB"@
    } else {
        in_unit(size, 0x4000_0000) + "GB"@
    }
}

proof fn lemma_double_step(n: nat)
    requires
        n <= u64::MAX,
    ensures
        1 <= double_step(n) <= 0x800,
        n >= 0x20_0000_0000_0000 ==> double_step(n) * 0x10_0000_0000_0000 <= n,
{
    reveal_with_fuel(double_step, 13);
}

fn double_step_of(n: u64) -> (step: u64)
    ensures
        step == double_step(n as nat),
    decreases n,
{
    proof {
        lemma_double_step(n as nat);
        lemma_double_step(n as nat / 2);
    }
    if n < 0x20_0000_0000_0000 {
        1
    } else {
        2 * double_step_of(n / 2)
    }
}

fn round_half_even(a: u128, b: u128) -> (r: u128)
    requires
        0 < b < 0x1_0000_0000_0000,
    ensures
        r == half_even(a as nat, b as nat),
{
    let q: u128 = a / b;
    let r: u128 = a % b;
    if 2 * r < b || (2 * r == b && q % 2 == 0) {
        q
    } else {
        proof {
            assert(q + 1 <= u128::MAX) by (nonlinear_arith)
                requires
                    q == a / b,
                    r == a % b,
                    2 * r >= b,
                    b > 0,
                    a <= u128::MAX,
            {}
        }
        q + 1
    }
}

fn push_two_decimals(out: &mut String, hundredths: u64)
    ensures
        final(out)@ == old(out)@ + two_decimals(hundredths as nat),
{
    text::push_decimal(out, hundredths / 100);
    out.append(".");
    out.push((0x30u8 + (hundredths / 10 % 10) as u8) as char);
    out.push((0x30u8 + (hundredths % 10) as u8) as char);
    assert(out@ =~= old(out)@ + two_decimals(hundredths as nat));
}

fn size_in_unit(size: u64, unit: u64) -> (r: String)
    requires
        0x400 <= unit <= 0x4000_0000,
    ensures
        r@ == in_unit(size as nat, unit as nat),
{
    let step: u64 = double_step_of(size);
    proof {
        lemma_double_step(size as nat);
    }
    let steps: u128 = round_half_even(size as u128, step as u128);
    assert(steps <= size + 1);
    assert(steps * step <= 0x1_0000_0000_0000_0800 * 0x800) by (nonlinear_arith)
        requires
            steps <= 0x1_0000_0000_0000_0000,
            step <= 0x800,
    ;
    let double: u128 = steps * step as u128;
    proof {
        lemma_double_bound(size as nat);
    }
    let hundredths: u128 = round_half_even(double * 100, unit as u128);
    assert(hundredths <= u64::MAX) by (nonlinear_arith)
        requires
            hundredths <= double * 100 / (unit as int) + 1,
            double <= 0x1_0000_0000_0000_0000,
            unit >= 0x400,
    ;
    let mut r = String::new();
    push_two_decimals(&mut r, hundredths as u64);
    assert(r@ =~= in_unit(size as nat, unit as nat));
    r
}

/// The double-precision numbers around a number below a power of two reach
/// at most to that power.
proof fn lemma_step_divides(n: nat, k: nat)
    requires
        n < power2::pow2(k),
        k >= 53,
    ensures
        double_step(n) >= 1,
        (n / double_step(n) + 1) * double_step(n) <= power2::pow2(k),
    decreases n,
{
    power2::lemma2_to64();
    power2::lemma2_to64_rest();
    if n >= 0x20_0000_0000_0000 {
        if k == 53 {
            assert(false);
        }
        power2::lemma_pow2_unfold(k);
        let half = n / 2;
        let step = double_step(half);
        lemma_step_divides(half, (k - 1) as nat);
        assert(n / (2 * step) == half / step) by {
            vstd::arithmetic::div_mod::lemma_div_denominator(n as int, 2, step as int);
        }
        assert((half / step + 1) * (2 * step) == 2 * ((half / step + 1) * step)) by (nonlinear_arith);
        assert(double_step(n) == 2 * step);
    } else {
        assert(double_step(n) == 1);
        assert(n / 1 == n);
        assert((n / 1 + 1) * 1 == n + 1);
    }
}

/// A rounded 64-bit number is at most 2^64.
proof fn lemma_double_bound(n: nat)
    requires
        n <= u64::MAX,
    ensures
        as_double(n) <= 0x1_0000_0000_0000_0000,
{
    power2::lemma2_to64();
    power2::lemma2_to64_rest();
    lemma_step_divides(n, 64);
    let step = double_step(n);
    let q = n / step;
    assert(half_even(n, step) * step <= (q + 1) * step) by (nonlinear_arith)
        requires
            half_even(n, step) <= q + 1,
            step >= 0,
    ;
}

/// A size in bytes in words: bytes below a kilobyte, then the largest of
/// kilobytes, megabytes and gigabytes that fits, with two decimals.
pub fn format_size(size: u64) -> (r: String)
    ensures
        r@ == size_words(size as nat),
{
    if size < 0x400 {
        let mut r = text::decimal_text(size);
        r.append("B");
        return r;
    }
    if size < 0x10_0000 {
        let mut r = size_in_unit(size, 0x400);
        r.append("KB");
        r
    } else if size < 0x4000_0000 {
        let mut r = size_in_unit(size, 0x10_0000);
        r.append("MB");
        r
    } else {
        let mut r = size_in_unit(size, 0x4000_0000);
        r.append("GB");
        r
    }
}

/// A duration in words: seconds with hundredths below a minute, then
/// minutes and hours.
pub open spec fn duration_words(secs: nat, millis: nat) -> Seq<char> {
    if secs < 60 {
        text::decimal(secs) + "."@ + seq![
            text::digit(millis / 100),
            text::digit(millis / 10 % 10),
        ] + "s"@
    } else if secs < 3600 {
        text::decimal(secs / 60) + "m "@ + text::decimal(secs % 60) + "s"@
    } else {
        text::decimal(secs / 3600) + "h "@ + text::decimal(secs % 3600 / 60) + "m "@ + text::decimal(
            secs % 60,
        ) + "s"@
    }
}

/// A duration in words, of whole seconds and the milliseconds behind them.
pub fn format_duration(secs: u64, millis: u32) -> (r: String)
    requires
        millis < 1000,
    ensures
        r@ == duration_words(secs as nat, millis as nat),
{
    if secs < 60 {
        let mut r = text::decimal_text(secs);
        r.append(".");
        let ghost start = r@;
        r.push((0x30u8 + (millis / 100) as u8) as char);
        r.push((0x30u8 + (millis / 10 % 10) as u8) as char);
        assert(r@ =~= start + seq![
            text::digit(millis as nat / 100),
            text::digit(millis as nat / 10 % 10),
        ]);
        r.append("s");
        return r;
    }
    if secs < 3600 {
        let mut r = text::decimal_text(secs / 60);
        r.append("m ");
        text::push_decimal(&mut r, secs % 60);
        r.append("s");
        return r;
    }
    let mut r = text::decimal_text(secs / 3600);
    r.append("h ");
    text::push_decimal(&mut r, secs % 3600 / 60);
    r.append("m ");
    text::push_decimal(&mut r, secs % 60);
    r.append("s");
    r
}

// ---------------------------------------------------------------------------
// Lines of a download
// ---------------------------------------------------------------------------

/// The glyph in front of a line that others follow in a file's block.
pub fn branch_glyph() -> (r: Span)
    ensures
        r@ == ("├╼"@, Style::CyanDimmed),
{
    Span { text: "├╼".to_owned(), style: Style::CyanDimmed }
}

/// The glyph in front of the last line of a file's block.
pub fn last_glyph() -> (r: Span)
    ensures
        r@ == ("╰╼"@, Style::CyanDimmed),
{
    Span { text: "╰╼".to_owned(), style: Style::CyanDimmed }
}

/// The template of a progress bar: what it says in front, the elapsed time,
/// the bar, the bytes, and the time left where that is wanted.
pub open spec fn bar_template(action: Seq<char>, color: Seq<char>, with_eta: bool) -> Seq<char> {
    action + "{elapsed_precise} {bar:40."@ + color + "} {bytes}/{total_bytes}"@ + (if with_eta {
        " (ETA: {eta})"@
    } else {
        Seq::empty()
    })
}

/// The template of a progress bar.
pub fn progress_template(action: &str, color: &str, with_eta: bool) -> (r: String)
    ensures
        r@ == bar_template(action@, color@, with_eta),
{
    let mut r = text::concat(action, "{elapsed_precise} {bar:40.");
    r.append(color);
    r.append("} {bytes}/{total_bytes}");
    if with_eta {
        r.append(" (ETA: {eta})");
    }
    assert(r@ =~= bar_template(action@, color@, with_eta));
    r
}

/// The first line of a file's banner: its name.
pub open spec fn filename_shown(file_path: Seq<char>) -> Seq<(Seq<char>, Style)> {
    seq![
        ("▣"@, Style::BrightCyanBold),
        ("  "@, Style::Plain),
        ("Filename"@, Style::White),
        ("     "@, Style::Plain),
        (file_path, Style::Bold),
    ]
}

/// The first line of a file's banner: its name.
pub fn filename_line(file_path: &str) -> (r: Line)
    ensures
        r@ == filename_shown(file_path@),
{
    let mut line = Line::new();
    line.push("▣", Style::BrightCyanBold);
    line.push("  ", Style::Plain);
    line.push("Filename", Style::White);
    line.push("     ", Style::Plain);
    line.push(file_path, Style::Bold);
    assert(line@ =~= filename_shown(file_path@));
    line
}

/// The second line of a file's banner: its number.
pub open spec fn count_shown(number: usize, total: usize) -> Seq<(Seq<char>, Style)> {
    seq![
        ("├╼"@, Style::CyanDimmed),
        (" "@, Style::Plain),
        ("Count"@, Style::White),
        ("        "@, Style::Plain),
        ("#"@, Style::BlueBold),
        (" "@, Style::Plain),
        (text::decimal(number as nat), Style::Bold),
        (" of "@, Style::Plain),
        (text::decimal(total as nat), Style::Bold),
    ]
}

/// The second line of a file's banner: its number.
pub fn count_line(number: usize, total: usize) -> (r: Line)
    ensures
        r@ == count_shown(number, total),
{
    let mut line = Line::new();
    line.push("├╼", Style::CyanDimmed);
    line.push(" ", Style::Plain);
    line.push("Count", Style::White);
    line.push("        ", Style::Plain);
    line.push("#", Style::BlueBold);
    line.push(" ", Style::Plain);
    line.push(&text::decimal_text(number as u64), Style::Bold);
    line.push(" of ", Style::Plain);
    line.push(&text::decimal_text(total as u64), Style::Bold);
    assert(line@ =~= count_shown(number, total));
    line
}

/// The banner of a file in a numbered list.
pub fn print_file_banner(file_path: &str, number: usize, total: usize) -> (r: Vec<Line>)
    ensures
        styled::lines(r@) == seq![filename_shown(file_path@), count_shown(number, total)],
{
    let mut lines: Vec<Line> = Vec::new();
    lines.push(filename_line(file_path));
    lines.push(count_line(number, total));
    assert(styled::lines(lines@) =~= seq![filename_shown(file_path@), count_shown(number, total)]);
    lines
}

/// The line for a transfer that was retried often enough.
pub open spec fn max_retries_shown(max_retries: u32) -> Seq<(Seq<char>, Style)> {
    seq![
        ("├╼"@, Style::CyanDimmed),
        (" "@, Style::Plain),
        ("Failed"@, Style::RedBold),
        ("       "@, Style::Plain),
        ("✘"@, Style::RedBold),
        (" Maximum retries ("@, Style::Plain),
        (text::decimal(max_retries as nat), Style::Plain),
        (") exceeded"@, Style::Plain),
    ]
}

/// The line for a transfer that was retried often enough.
pub fn print_max_retries_exceeded(max_retries: u32) -> (r: Line)
    ensures
        r@ == max_retries_shown(max_retries),
{
    let mut line = Line::new();
    line.push("├╼", Style::CyanDimmed);
    line.push(" ", Style::Plain);
    line.push("Failed", Style::RedBold);
    line.push("       ", Style::Plain);
    line.push("✘", Style::RedBold);
    line.push(" Maximum retries (", Style::Plain);
    line.push(&text::decimal_text(max_retries as u64), Style::Plain);
    line.push(") exceeded", Style::Plain);
    assert(line@ =~= max_retries_shown(max_retries));
    line
}

/// The line for an attempt that is tried again, and why.
pub open spec fn retry_notice_shown(
    kind: Seq<char>,
    attempt: u32,
    max_retries: u32,
    detail: Seq<char>,
) -> Seq<(Seq<char>, Style)> {
    seq![
        ("├╼"@, Style::CyanDimmed),
        (" "@, Style::Plain),
        ("Retry"@, Style::YellowBold),
        ("        "@, Style::Plain),
        ("⟳"@, Style::YellowBold),
        (" "@, Style::Plain),
        (kind, Style::Plain),
        (" (attempt "@, Style::Plain),
        (text::decimal(attempt as nat), Style::Plain),
        ("/"@, Style::Plain),
        (text::decimal(max_retries as nat), Style::Plain),
        ("): "@, Style::Plain),
        (detail, Style::Plain),
    ]
}

/// The line for an attempt that is tried again, and why.
pub fn print_retry_notice(kind: &str, attempt: u32, max_retries: u32, detail: &str) -> (r: Line)
    ensures
        r@ == retry_notice_shown(kind@, attempt, max_retries, detail@),
{
    let mut line = Line::new();
    line.push("├╼", Style::CyanDimmed);
    line.push(" ", Style::Plain);
    line.push("Retry", Style::YellowBold);
    line.push("        ", Style::Plain);
    line.push("⟳", Style::YellowBold);
    line.push(" ", Style::Plain);
    line.push(kind, Style::Plain);
    line.push(" (attempt ", Style::Plain);
    line.push(&text::decimal_text(attempt as u64), Style::Plain);
    line.push("/", Style::Plain);
    line.push(&text::decimal_text(max_retries as u64), Style::Plain);
    line.push("): ", Style::Plain);
    line.push(detail, Style::Plain);
    assert(line@ =~= retry_notice_shown(kind@, attempt, max_retries, detail@));
    line
}

/// The line for the wait before a retry, of seconds with one decimal, and
/// whether the server asked for it.
pub open spec fn retry_wait_shown(secs: Seq<char>, server_requested: bool) -> Seq<(Seq<char>, Style)> {
    seq![
        ("├╼"@, Style::CyanDimmed),
        (" "@, Style::Plain),
        ("Wait"@, Style::White),
        ("         Waiting "@, Style::Plain),
        (secs, Style::Plain),
        ("s before retry"@, Style::Plain),
        (if server_requested {
            " (server requested)"@
        } else {
            ""@
        }, Style::Plain),
    ]
}

/// The line for the wait before a retry, of seconds with one decimal, and
/// whether the server asked for it.
pub fn print_retry_wait(secs: &str, server_requested: bool) -> (r: Line)
    ensures
        r@ == retry_wait_shown(secs@, server_requested),
{
    let mut line = Line::new();
    line.push("├╼", Style::CyanDimmed);
    line.push(" ", Style::Plain);
    line.push("Wait", Style::White);
    line.push("         Waiting ", Style::Plain);
    line.push(secs, Style::Plain);
    line.push("s before retry", Style::Plain);
    line.push(if server_requested {
            " (server requested)"
        } else {
            ""
        }, Style::Plain);
    assert(line@ =~= retry_wait_shown(secs@, server_requested));
    line
}

/// The line for a copy that is there but wrong.
pub open spec fn stale_file_shown() -> Seq<(Seq<char>, Style)> {
    seq![
        ("├╼"@, Style::CyanDimmed),
        (" "@, Style::Plain),
        ("Partial"@, Style::White),
        ("      "@, Style::Plain),
        ("▲"@, Style::YellowBold),
        (" the existing file failed verification, re-downloading"@, Style::Plain),
    ]
}

/// The line for a copy that is there but wrong.
pub fn print_stale_file_redownload() -> (r: Line)
    ensures
        r@ == stale_file_shown(),
{
    let mut line = Line::new();
    line.push("├╼", Style::CyanDimmed);
    line.push(" ", Style::Plain);
    line.push("Partial", Style::White);
    line.push("      ", Style::Plain);
    line.push("▲", Style::YellowBold);
    line.push(" the existing file failed verification, re-downloading", Style::Plain);
    assert(line@ =~= stale_file_shown());
    line
}

/// The line for a partial file that is already complete.
pub open spec fn complete_part_shown() -> Seq<(Seq<char>, Style)> {
    seq![
        ("├╼"@, Style::CyanDimmed),
        (" "@, Style::Plain),
        ("Resume"@, Style::White),
        ("       "@, Style::Plain),
        ("↻"@, Style::GreenBold),
        (" the .part file is already complete, verifying it in place"@, Style::Plain),
    ]
}

/// The line for a partial file that is already complete.
pub fn print_complete_part_verification() -> (r: Line)
    ensures
        r@ == complete_part_shown(),
{
    let mut line = Line::new();
    line.push("├╼", Style::CyanDimmed);
    line.push(" ", Style::Plain);
    line.push("Resume", Style::White);
    line.push("       ", Style::Plain);
    line.push("↻", Style::GreenBold);
    line.push(" the .part file is already complete, verifying it in place", Style::Plain);
    assert(line@ =~= complete_part_shown());
    line
}

/// The line for a file that is downloaded again from its start.
pub open spec fn redownload_shown(attempt: u32, max_attempts: u32) -> Seq<(Seq<char>, Style)> {
    seq![
        ("├╼"@, Style::CyanDimmed),
        (" "@, Style::Plain),
        ("Retry"@, Style::YellowBold),
        ("        "@, Style::Plain),
        ("⟳"@, Style::YellowBold),
        (" Re-downloading from scratch (attempt "@, Style::Plain),
        (text::decimal(attempt as nat), Style::Plain),
        ("/"@, Style::Plain),
        (text::decimal(max_attempts as nat), Style::Plain),
        (")"@, Style::Plain),
    ]
}

/// The line for a file that is downloaded again from its start.
pub fn print_redownload_from_scratch(attempt: u32, max_attempts: u32) -> (r: Line)
    ensures
        r@ == redownload_shown(attempt, max_attempts),
{
    let mut line = Line::new();
    line.push("├╼", Style::CyanDimmed);
    line.push(" ", Style::Plain);
    line.push("Retry", Style::YellowBold);
    line.push("        ", Style::Plain);
    line.push("⟳", Style::YellowBold);
    line.push(" Re-downloading from scratch (attempt ", Style::Plain);
    line.push(&text::decimal_text(attempt as u64), Style::Plain);
    line.push("/", Style::Plain);
    line.push(&text::decimal_text(max_attempts as u64), Style::Plain);
    line.push(")", Style::Plain);
    assert(line@ =~= redownload_shown(attempt, max_attempts));
    line
}

/// The line for a modification time that could not be set.
pub open spec fn mtime_warning_shown(detail: Seq<char>) -> Seq<(Seq<char>, Style)> {
    seq![
        ("⚠"@, Style::YellowBold),
        (" "@, Style::Plain),
        ("Could not set last modified time"@, Style::Yellow),
        ("      "@, Style::Plain),
        (detail, Style::Dimmed),
    ]
}

/// The line for a modification time that could not be set.
pub fn print_mtime_warning(detail: &str) -> (r: Line)
    ensures
        r@ == mtime_warning_shown(detail@),
{
    let mut line = Line::new();
    line.push("⚠", Style::YellowBold);
    line.push(" ", Style::Plain);
    line.push("Could not set last modified time", Style::Yellow);
    line.push("      ", Style::Plain);
    line.push(detail, Style::Dimmed);
    assert(line@ =~= mtime_warning_shown(detail@));
    line
}

/// The line for a batch that was stopped.
pub open spec fn interrupted_shown() -> Seq<(Seq<char>, Style)> {
    seq![
        ("✘"@, Style::RedBold),
        (" Download interrupted. Run the command again to resume remaining files."@, Style::Plain),
    ]
}

/// The line for a batch that was stopped.
pub fn print_download_interrupted() -> (r: Line)
    ensures
        r@ == interrupted_shown(),
{
    let mut line = Line::new();
    line.push("✘", Style::RedBold);
    line.push(" Download interrupted. Run the command again to resume remaining files.", Style::Plain);
    assert(line@ =~= interrupted_shown());
    line
}

/// The line for a check that was stopped.
pub open spec fn check_interrupted_shown() -> Seq<(Seq<char>, Style)> {
    seq![("✘"@, Style::RedBold), (" Check interrupted."@, Style::Plain)]
}

/// The line for a check that was stopped.
pub fn print_check_interrupted() -> (r: Line)
    ensures
        r@ == check_interrupted_shown(),
{
    let mut line = Line::new();
    line.push("✘", Style::RedBold);
    line.push(" Check interrupted.", Style::Plain);
    assert(line@ =~= check_interrupted_shown());
    line
}

/// The closing line of a batch: how many files it had, and how many succeeded and failed.
pub open spec fn download_summary_shown(total: usize, ok: usize, failed: usize) -> Seq<
    (Seq<char>, Style),
> {
    seq![
        ("Σ"@, Style::Bold),
        (" downloaded "@, Style::Plain),
        (text::decimal(total as nat), Style::Plain),
        (if total == 1 {
            " file: "@
        } else {
            " files: "@
        }, Style::Plain),
        (text::decimal(ok as nat), Style::Plain),
        (" ok, "@, Style::Plain),
        (text::decimal(failed as nat), Style::Plain),
        (" failed"@, Style::Plain),
    ]
}

/// The closing line of a batch: how many files it had, and how many succeeded and failed.
pub fn print_download_summary(total: usize, ok: usize, failed: usize) -> (r: Line)
    ensures
        r@ == download_summary_shown(total, ok, failed),
{
    let mut line = Line::new();
    line.push("Σ", Style::Bold);
    line.push(" downloaded ", Style::Plain);
    line.push(&text::decimal_text(total as u64), Style::Plain);
    line.push(if total == 1 {
            " file: "
        } else {
            " files: "
        }, Style::Plain);
    line.push(&text::decimal_text(ok as u64), Style::Plain);
    line.push(" ok, ", Style::Plain);
    line.push(&text::decimal_text(failed as u64), Style::Plain);
    line.push(" failed", Style::Plain);
    assert(line@ =~= download_summary_shown(total, ok, failed));
    line
}

/// The start of a download's progress bar.
pub open spec fn action_label_shown(resuming: bool) -> Seq<(Seq<char>, Style)> {
    seq![
        ("╰╼"@, Style::CyanDimmed),
        (" "@, Style::Plain),
        (if resuming {
            "Resuming"@
        } else {
            "Downloading"@
        }, Style::White),
        (if resuming {
            "     "@
        } else {
            "  "@
        }, Style::Plain),
    ]
}

/// The start of a download's progress bar.
pub fn download_action_label(resuming: bool) -> (r: Line)
    ensures
        r@ == action_label_shown(resuming),
{
    let mut line = Line::new();
    line.push("╰╼", Style::CyanDimmed);
    line.push(" ", Style::Plain);
    line.push(if resuming {
            "Resuming"
        } else {
            "Downloading"
        }, Style::White);
    line.push(if resuming {
            "     "
        } else {
            "  "
        }, Style::Plain);
    assert(line@ =~= action_label_shown(resuming));
    line
}

/// The line for a finished file: its glyph, its size, and, where it crossed
/// the network, how long that took and at what rate.
pub open spec fn downloaded_shown(
    glyph: (Seq<char>, Style),
    transferred: u64,
    took: Option<(u64, u32, Seq<char>)>,
) -> Seq<(Seq<char>, Style)> {
    let head = seq![
        glyph,
        (" "@, Style::Plain),
        ("Downloaded"@, Style::White),
        ("   "@, Style::Plain),
        ("↓"@, Style::GreenBold),
        (" "@, Style::Plain),
        (size_words(transferred as nat), Style::Bold),
    ];
    match took {
        Some((secs, millis, rate)) => head.push((" in "@, Style::Plain)).push(
            (duration_words(secs as nat, millis as nat), Style::Bold),
        ).push((" ("@ + rate + "/s)"@, Style::Plain)),
        None => head,
    }
}

/// The line for a finished file: its glyph, its size, and, where it crossed
/// the network, how many seconds and milliseconds that took and at what rate.
pub fn print_downloaded_line(glyph: &Span, transferred: u64, took: Option<(u64, u32, &str)>) -> (r:
    Line)
    requires
        took matches Some((_, millis, _)) ==> millis < 1000,
    ensures
        r@ == downloaded_shown(
            glyph@,
            transferred,
            match took {
                Some((secs, millis, rate)) => Some((secs, millis, rate@)),
                None => None,
            },
        ),
{
    let mut line = Line::new();
    line.push(&glyph.text, glyph.style);
    line.push(" ", Style::Plain);
    line.push("Downloaded", Style::White);
    line.push("   ", Style::Plain);
    line.push("↓", Style::GreenBold);
    line.push(" ", Style::Plain);
    line.push(&format_size(transferred), Style::Bold);
    let ghost head = line@;
    match took {
        Some((secs, millis, rate)) => {
            line.push(" in ", Style::Plain);
            line.push(&format_duration(secs, millis), Style::Bold);
            let mut shown = text::concat(" (", rate);
            shown.append("/s)");
            line.push(&shown, Style::Plain);
        },
        None => {},
    }
    assert(head =~= downloaded_shown(glyph@, transferred, None));
    line
}

// ---------------------------------------------------------------------------
// What is shown
// ---------------------------------------------------------------------------

/// Rounding gives the nearest whole number, and the even one of two that are
/// as near.
pub proof fn rounding_is_to_the_nearest(a: nat, b: nat)
    requires
        b > 0,
    ensures
        2 * (half_even(a, b) * b - a) <= b,
        2 * (a - half_even(a, b) * b) <= b,
        2 * (half_even(a, b) * b - a) == b || 2 * (a - half_even(a, b) * b) == b ==> half_even(a, b)
            % 2 == 0,
{
    let q = a / b;
    let r = a % b;
    assert(a == q * b + r && 0 <= r < b) by (nonlinear_arith)
        requires
            b > 0,
            q == a / b,
            r == a % b,
    ;
    assert((q + 1) * b == q * b + b) by (nonlinear_arith);
}

/// Numbers below 2^53 are double-precision numbers as they are; any other is
/// off by half a step at most.
pub proof fn doubles_are_near(n: nat)
    ensures
        n < 0x20_0000_0000_0000 ==> as_double(n) == n,
        2 * (as_double(n) - n) <= double_step(n),
        2 * (n - as_double(n)) <= double_step(n),
        double_step(n) > 0,
{
    lemma_step_is_positive(n);
    rounding_is_to_the_nearest(n, double_step(n));
    if n < 0x20_0000_0000_0000 {
        assert(n / 1 == n && n % 1 == 0);
    }
}

proof fn lemma_step_is_positive(n: nat)
    ensures
        double_step(n) > 0,
    decreases n,
{
    if n >= 0x20_0000_0000_0000 {
        lemma_step_is_positive(n / 2);
    }
}

/// A size is shown in bytes below a kilobyte, and otherwise in the largest
/// unit that it fills, with the two decimals that are nearest to it.
pub proof fn sizes_are_shown_in_their_unit(size: nat)
    requires
        size < 0x20_0000_0000_0000,
    ensures
        size < 1024 ==> size_words(size) == text::decimal(size) + seq!['B'],
        1024 <= size < 1048576 ==> exists|h: nat|
            size_words(size) == #[trigger] two_decimals(h) + seq!['K', 'B'] && -512 <= h * 1024
                - size * 100 <= 512,
        1048576 <= size < 1073741824 ==> exists|h: nat|
            size_words(size) == #[trigger] two_decimals(h) + seq!['M', 'B'] && -524288 <= h
                * 1048576 - size * 100 <= 524288,
        1073741824 <= size ==> exists|h: nat|
            size_words(size) == #[trigger] two_decimals(h) + seq!['G', 'B'] && -536870912 <= h
                * 1073741824 - size * 100 <= 536870912,
{
    reveal_strlit("B");
    reveal_strlit("KB");
    reveal_strlit("MB");
    reveal_strlit("GB");
    assert("B"@ =~= seq!['B']);
    assert("KB"@ =~= seq!['K', 'B']);
    assert("MB"@ =~= seq!['M', 'B']);
    assert("GB"@ =~= seq!['G', 'B']);
    doubles_are_near(size);
    let unit: nat = if size < 1048576 {
        1024
    } else if size < 1073741824 {
        1048576
    } else {
        1073741824
    };
    rounding_is_to_the_nearest(size * 100, unit);
    let h = half_even(size * 100, unit);
    assert(in_unit(size, unit) == two_decimals(h));
}

/// Two decimals are the whole part, a point and two digits, which together
/// stand for the number of hundredths.
pub proof fn two_decimals_stand_for_hundredths(h: nat)
    ensures
        ({
            let s = two_decimals(h);
            let n = s.len();
            &&& n >= 4
            &&& s[n - 3] == '.'
            &&& text::is_digit(s[n - 2]) && text::is_digit(s[n - 1])
            &&& text::number(s.take(n - 3)) * 100 + (s[n - 2] as u32 - 0x30) * 10 + (s[n - 1] as u32
                - 0x30) == h
        }),
{
    reveal_strlit(".");
    let s = two_decimals(h);
    text::lemma_decimal(h / 100);
    assert(s.take(s.len() - 3) =~= text::decimal(h / 100));
}

/// A duration is shown in whole hours, minutes and seconds that add up to
/// it; one below a minute in seconds and hundredths.
pub proof fn durations_add_up(secs: nat, millis: nat)
    requires
        millis < 1000,
    ensures
        secs < 60 ==> exists|c: nat|
            c == millis / 10 && duration_words(secs, millis) == #[trigger] two_decimals(
                secs * 100 + c,
            ) + seq!['s'],
        60 <= secs < 3600 ==> exists|m: nat, s: nat|
            m * 60 + s == secs && s < 60 && duration_words(secs, millis) == #[trigger] text::decimal(
                m,
            ) + seq!['m', ' '] + #[trigger] text::decimal(s) + seq!['s'],
        secs >= 3600 ==> exists|h: nat, m: nat, s: nat|
            h * 3600 + m * 60 + s == secs && m < 60 && s < 60 && duration_words(secs, millis)
                == #[trigger] text::decimal(h) + seq!['h', ' '] + #[trigger] text::decimal(m)
                + seq!['m', ' '] + #[trigger] text::decimal(s) + seq!['s'],
{
    reveal_strlit("s");
    reveal_strlit("m ");
    reveal_strlit("h ");
    assert("s"@ =~= seq!['s']);
    assert("m "@ =~= seq!['m', ' ']);
    assert("h "@ =~= seq!['h', ' ']);
    if secs < 60 {
        let c = millis / 10;
        let all = secs * 100 + c;
        assert(all / 100 == secs);
        assert(all / 10 % 10 == millis / 100);
        assert(all % 10 == millis / 10 % 10);
        assert(duration_words(secs, millis) =~= two_decimals(all) + seq!['s']);
    } else if secs < 3600 {
        let m = secs / 60;
        let s = secs % 60;
        assert(m * 60 + s == secs);
        assert(duration_words(secs, millis) == text::decimal(m) + seq!['m', ' '] + text::decimal(s)
            + seq!['s']);
    } else {
        let h = secs / 3600;
        let m = secs % 3600 / 60;
        let s = secs % 60;
        assert(h * 3600 + m * 60 + s == secs);
        assert(duration_words(secs, millis) == text::decimal(h) + seq!['h', ' '] + text::decimal(m)
            + seq!['m', ' '] + text::decimal(s) + seq!['s']);
    }
}

/// The closing line of a batch names its files, and how many were had and
/// how many not.
pub proof fn summaries_name_their_numbers(total: usize, ok: usize, failed: usize)
    ensures
        download_summary_shown(total, ok, failed).map_values(
            |piece: (Seq<char>, Style)| piece.0,
        ) == seq![
            "Σ"@,
            " downloaded "@,
            text::decimal(total as nat),
            if total == 1 {
                " file: "@
            } else {
                " files: "@
            },
            text::decimal(ok as nat),
            " ok, "@,
            text::decimal(failed as nat),
            " failed"@,
        ],
{
    assert(download_summary_shown(total, ok, failed).map_values(
        |piece: (Seq<char>, Style)| piece.0,
    ) =~= seq![
        "Σ"@,
        " downloaded "@,
        text::decimal(total as nat),
        if total == 1 {
            " file: "@
        } else {
            " files: "@
        },
        text::decimal(ok as nat),
        " ok, "@,
        text::decimal(failed as nat),
        " failed"@,
    ]);
}

/// The lines of a transfer name what they are about: the file and its
/// number, why it is tried again and how often it was, and how long the wait
/// is, with a word where the server asked for it.
pub proof fn transfer_lines_name_their_facts(
    path: Seq<char>,
    number: usize,
    total: usize,
    kind: Seq<char>,
    attempt: u32,
    max: u32,
    detail: Seq<char>,
    secs: Seq<char>,
    asked: bool,
)
    ensures
        filename_shown(path).last() == (path, Style::Bold),
        count_shown(number, total)[6].0 == text::decimal(number as nat),
        count_shown(number, total).last().0 == text::decimal(total as nat),
        retry_notice_shown(kind, attempt, max, detail)[6].0 == kind,
        retry_notice_shown(kind, attempt, max, detail)[8].0 == text::decimal(attempt as nat),
        retry_notice_shown(kind, attempt, max, detail)[10].0 == text::decimal(max as nat),
        retry_notice_shown(kind, attempt, max, detail).last().0 == detail,
        retry_wait_shown(secs, asked)[4].0 == secs,
        retry_wait_shown(secs, asked).last().0 == (if asked {
            " (server requested)"@
        } else {
            ""@
        }),
        max_retries_shown(max)[6].0 == text::decimal(max as nat),
        redownload_shown(attempt, max)[6].0 == text::decimal(attempt as nat),
        redownload_shown(attempt, max)[8].0 == text::decimal(max as nat),
        mtime_warning_shown(detail).last().0 == detail,
{
}

/// The line for a finished file names its size, and where it crossed the
/// network the time and the rate.
pub proof fn finished_files_name_their_size(
    glyph: (Seq<char>, Style),
    transferred: u64,
    secs: u64,
    millis: u32,
    rate: Seq<char>,
)
    ensures
        downloaded_shown(glyph, transferred, None).last().0 == size_words(transferred as nat),
        downloaded_shown(glyph, transferred, None).first() == glyph,
        ({
            let line = downloaded_shown(glyph, transferred, Some((secs, millis, rate)));
            &&& line.len() == downloaded_shown(glyph, transferred, None).len() + 3
            &&& line.take(line.len() - 3) == downloaded_shown(glyph, transferred, None)
            &&& line[line.len() - 2].0 == duration_words(secs as nat, millis as nat)
            &&& line.last().0 == " ("@ + rate + "/s)"@
        }),
{
    let line = downloaded_shown(glyph, transferred, Some((secs, millis, rate)));
    assert(line.take(line.len() - 3) =~= downloaded_shown(glyph, transferred, None));
}

/// The label of a transfer says whether it goes on or starts; both are as
/// wide with what follows them. The bar's template starts with the label and
/// ends with the time that is left, where that is shown.
pub proof fn labels_say_what_is_done(
    resuming: bool,
    action: Seq<char>,
    color: Seq<char>,
)
    ensures
        action_label_shown(resuming)[2].0 == (if resuming {
            "Resuming"@
        } else {
            "Downloading"@
        }),
        action_label_shown(resuming)[2].0.len() + action_label_shown(resuming)[3].0.len() == 13,
        bar_template(action, color, false) == action + "{elapsed_precise} {bar:40."@ + color
            + "} {bytes}/{total_bytes}"@,
        bar_template(action, color, true) == bar_template(action, color, false)
            + " (ETA: {eta})"@,
        stale_file_shown().last().0
            == " the existing file failed verification, re-downloading"@,
        complete_part_shown().last().0
            == " the .part file is already complete, verifying it in place"@,
        interrupted_shown().last().0
            == " Download interrupted. Run the command again to resume remaining files."@,
        check_interrupted_shown().last().0 == " Check interrupted."@,
{
    reveal_strlit("Resuming");
    reveal_strlit("Downloading");
    reveal_strlit("     ");
    reveal_strlit("  ");
    assert(bar_template(action, color, false) =~= action + "{elapsed_precise} {bar:40."@ + color
        + "} {bytes}/{total_bytes}"@);
}

/// How wide the first four pieces of a line are: what stands before its
/// details.
pub open spec fn column(line: Seq<(Seq<char>, Style)>) -> nat {
    line[0].0.len() + line[1].0.len() + line[2].0.len() + line[3].0.len()
}

/// The lines about a file have their label in front, and their details in
/// one column.
pub proof fn details_stand_in_one_column(
    path: Seq<char>,
    number: usize,
    total: usize,
    kind: Seq<char>,
    attempt: u32,
    max: u32,
    size: u64,
)
    ensures
        column(filename_shown(path)) == 16,
        column(count_shown(number, total)) == 16,
        column(retry_notice_shown(kind, attempt, max, path)) == 16,
        column(max_retries_shown(max)) == 16,
        column(redownload_shown(attempt, max)) == 16,
        column(stale_file_shown()) == 16,
        column(complete_part_shown()) == 16,
        column(downloaded_shown(("╰╼"@, Style::CyanDimmed), size, None)) == 16,
        column(action_label_shown(true)) == 16,
        column(action_label_shown(false)) == 16,
        filename_shown(path)[2].0 == "Filename"@,
        count_shown(number, total)[2].0 == "Count"@,
        retry_notice_shown(kind, attempt, max, path)[2].0 == "Retry"@,
        max_retries_shown(max)[2].0 == "Failed"@,
        redownload_shown(attempt, max)[2].0 == "Retry"@,
        downloaded_shown(("╰╼"@, Style::CyanDimmed), size, None)[2].0 == "Downloaded"@,
{
    reveal_strlit("▣");
    reveal_strlit("├╼");
    reveal_strlit("╰╼");
    reveal_strlit(" ");
    reveal_strlit("  ");
    reveal_strlit("   ");
    reveal_strlit("     ");
    reveal_strlit("      ");
    reveal_strlit("       ");
    reveal_strlit("        ");
    reveal_strlit("Filename");
    reveal_strlit("Count");
    reveal_strlit("Retry");
    reveal_strlit("Failed");
    reveal_strlit("Partial");
    reveal_strlit("Resume");
    reveal_strlit("Downloaded");
    reveal_strlit("Resuming");
    reveal_strlit("Downloading");
}

} // verus!
