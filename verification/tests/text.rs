//! Text, sizes and durations as they are shown.

use ia_get::display::{
    branch_glyph, count_line, download_action_label, filename_line, format_duration, format_size,
    last_glyph, print_check_interrupted, print_complete_part_verification,
    print_download_interrupted,
    print_download_summary, print_downloaded_line, print_file_banner, print_max_retries_exceeded,
    print_mtime_warning, print_redownload_from_scratch, print_retry_notice, print_retry_wait,
    print_stale_file_redownload, progress_template,
};
use ia_get::styled::{Line, Style};
use ia_get::text::{
    chars_of, decimal_text, ends_with, find, has_char, has_part, is_ascii_alphanumeric,
    is_whitespace, parse_u64, push_padded, same, same_ignoring_case, split_chars, starts_with,
    text_of, to_lower, trim_text, Trim,
};

#[test]
fn white_space_is_that_of_unicode() {
    for code in 0..=0x10ffff_u32 {
        if let Some(c) = char::from_u32(code) {
            assert_eq!(is_whitespace(c), c.is_whitespace(), "{code:#x}");
            assert_eq!(is_ascii_alphanumeric(c), c.is_ascii_alphanumeric(), "{code:#x}");
            assert_eq!(to_lower(c), c.to_ascii_lowercase(), "{code:#x}");
        }
    }
}

#[test]
fn trimming_matches_the_set() {
    assert_eq!(trim_text("  a b ", Trim::Space), "a b");
    assert_eq!(trim_text(" .a. ", Trim::SpaceOrDot), "a");
    assert_eq!(trim_text("//a/b/", Trim::Slash), "a/b");
    assert_eq!(trim_text("\\/a\\", Trim::Separator), "a");
    assert_eq!(trim_text("..a.b.", Trim::Dot), "a.b");
    assert_eq!(trim_text("   ", Trim::Space), "");
}

#[test]
fn splitting_keeps_empty_pieces() {
    let pieces = |s: &str| -> Vec<String> {
        split_chars(&chars_of(s), '/').iter().map(text_of).collect()
    };
    assert_eq!(pieces("a//b/"), vec!["a", "", "b", ""]);
    assert_eq!(pieces(""), vec![""]);
}

#[test]
fn searching_finds_the_first_place() {
    let row = chars_of("héllo");
    assert_eq!(find(&row, 'l'), 2);
    assert_eq!(find(&row, 'x'), 5);
    assert!(has_char(&row, 'é'));
    assert!(starts_with(&row, "hé") && !starts_with(&row, "he"));
    assert!(ends_with(&row, "llo") && !ends_with(&row, "hhéllo"));
    assert!(has_part("a://b", "://") && !has_part("a:/b", "://") && has_part("", ""));
    assert!(same("a", "a") && !same("a", "A") && same_ignoring_case("aZ", "Az"));
    assert!(!same_ignoring_case("É", "é"), "only ASCII letters fold");
}

#[test]
fn numbers_read_as_they_are_written() {
    for n in [0, 7, 10, 99, 100, 65_535, u64::MAX - 1, u64::MAX] {
        let written = decimal_text(n);
        assert_eq!(written, n.to_string());
        assert_eq!(parse_u64(&chars_of(&written)), Some(n));
    }
    assert_eq!(parse_u64(&chars_of("+5")), Some(5));
    assert_eq!(parse_u64(&chars_of("007")), Some(7));
    for bad in ["", "+", "-1", "1 ", "1x", "18446744073709551616", "99999999999999999999999"] {
        assert_eq!(parse_u64(&chars_of(bad)), None, "{bad:?}");
    }
}

#[test]
fn padding_counts_characters() {
    let mut row = String::from(">");
    push_padded(&mut row, "é", 3);
    push_padded(&mut row, "wide", 2);
    assert_eq!(row, ">  éwide");
}

fn expected_size(size: u64) -> String {
    const KB: f64 = 1024.0;
    const MB: f64 = KB * 1024.0;
    const GB: f64 = MB * 1024.0;
    let bytes = size as f64;
    if size < 1024 {
        format!("{size}B")
    } else if bytes < MB {
        format!("{:.2}KB", bytes / KB)
    } else if bytes < GB {
        format!("{:.2}MB", bytes / MB)
    } else {
        format!("{:.2}GB", bytes / GB)
    }
}

#[test]
fn sizes_round_like_double_precision_numbers() {
    assert_eq!(format_size(0), "0B");
    assert_eq!(format_size(1023), "1023B");
    assert_eq!(format_size(1024), "1.00KB");
    assert_eq!(format_size(12_345), "12.06KB");
    assert_eq!(format_size(1_048_575), "1024.00KB");
    assert_eq!(format_size(1_048_576), "1.00MB");
    assert_eq!(format_size(1_073_741_824), "1.00GB");
    let mut seed: u64 = 1;
    for i in 0..200_000_u64 {
        seed = seed.wrapping_mul(6364136223846793005).wrapping_add(1442695040888963407);
        let size = seed >> (i % 64);
        assert_eq!(format_size(size), expected_size(size), "{size}");
    }
    for size in (0..40_000).chain([u64::MAX, u64::MAX - 1, 1 << 53, (1 << 53) + 1, (1 << 53) + 3]) {
        assert_eq!(format_size(size), expected_size(size), "{size}");
    }
}

#[test]
fn durations_grow_coarser() {
    assert_eq!(format_duration(0, 5), "0.00s");
    assert_eq!(format_duration(1, 239), "1.23s");
    assert_eq!(format_duration(59, 999), "59.99s");
    assert_eq!(format_duration(61, 500), "1m 1s");
    assert_eq!(format_duration(3_600, 0), "1h 0m 0s");
    assert_eq!(format_duration(3_725, 0), "1h 2m 5s");
}

fn spans(line: &Line) -> Vec<(String, Style)> {
    line.spans.iter().map(|span| (span.text.clone(), span.style)).collect()
}

#[test]
fn lines_read_as_shown() {
    assert_eq!(branch_glyph().text, "├╼");
    assert_eq!(last_glyph().text, "╰╼");
    assert_eq!(filename_line("a/b.txt").plain(), "▣  Filename     a/b.txt");
    assert_eq!(count_line(2, 7).plain(), "├╼ Count        # 2 of 7");
    let banner = print_file_banner("f", 1, 1);
    assert_eq!(banner.len(), 2);
    assert_eq!(banner[1].plain(), "├╼ Count        # 1 of 1");
    assert_eq!(
        print_max_retries_exceeded(10).plain(),
        "├╼ Failed       ✘ Maximum retries (10) exceeded"
    );
    assert!(print_retry_notice("Network error", 2, 10, "boom").plain().contains("Network error"));
    assert!(print_retry_wait("5.0", true).plain().starts_with("├╼ Wait         Waiting 5.0s before retry"));
    assert_ne!(print_retry_wait("5.0", true).plain(), print_retry_wait("5.0", false).plain());
    assert!(print_stale_file_redownload().plain().contains("failed verification"));
    assert!(print_complete_part_verification().plain().contains("already complete"));
    assert!(print_redownload_from_scratch(2, 3).plain().ends_with("(attempt 2/3)"));
    assert!(print_mtime_warning("no").plain().ends_with("no"));
    assert_eq!(print_check_interrupted().plain(), "✘ Check interrupted.");
    assert!(print_download_interrupted().plain().contains("Download interrupted"));
    assert_eq!(
        print_download_summary(1, 1, 0).plain(),
        "Σ downloaded 1 file: 1 ok, 0 failed"
    );
    assert_eq!(
        print_download_summary(3, 1, 2).plain(),
        "Σ downloaded 3 files: 1 ok, 2 failed"
    );
    assert_eq!(download_action_label(true).plain(), "╰╼ Resuming     ");
    assert_eq!(download_action_label(false).plain(), "╰╼ Downloading  ");
    let line = print_downloaded_line(&last_glyph(), 2048, Some((1, 500, "1.33 KB")));
    assert_eq!(line.plain(), "╰╼ Downloaded   ↓ 2.00KB in 1.50s (1.33 KB/s)");
    let line = print_downloaded_line(&last_glyph(), 23, None);
    assert_eq!(line.plain(), "╰╼ Downloaded   ↓ 23B");
    assert_eq!(spans(&line)[0], ("╰╼".to_string(), Style::CyanDimmed));
    assert_eq!(
        progress_template("x ", "green", true),
        "x {elapsed_precise} {bar:40.green} {bytes}/{total_bytes} (ETA: {eta})"
    );
}
