//! Times, limits, retries, hashes and Ctrl+C.

use ia_get::clock::{nanos_at, now_nanos, now_secs, secs_at, BeforeEpoch};
use ia_get::downloader::mtime::{
    mtime_from_xml, mtime_to_install, parse_last_modified, sync_file_mtime,
};
use ia_get::downloader::rate::{parse_rate, rate_number, RateLimiter};
use ia_get::downloader::retry::{
    backoff_delay, backoff_with_seed, jitter_ms, jitter_with_seed, parse_retry_after,
    parse_retry_after_at, seed_at, RetryStep, RetryTracker, Wait, WaitStep,
    INTERRUPT_CHECK_INTERVAL_MS, MAX_RETRIES, MAX_RETRY_AFTER_SECS, MAX_RETRY_DELAY_MS,
};
use ia_get::downloader::signal::{handle_ctrl_c, CtrlCAction, StopSignal};
use ia_get::downloader::stream::Moment;
use ia_get::downloader::verify::{
    check_existing_file, digest_hex, hash_matches, needs_download_hash, needs_existing_hash,
    print_verified_hash, shows_hash_progress, size_mismatch, verify_part, ExistingFileStatus,
    FileHasher, PartVerification, PathState,
};
use ia_get::error::{io_error_with_path, IaGetError, IoFault, IoKind};

const MB: f64 = 1024.0 * 1024.0;
const GB: f64 = MB * 1024.0;

fn md5_hex(content: &[u8]) -> String {
    let mut hasher = FileHasher::new();
    hasher.feed(content, true).unwrap();
    hasher.finish()
}

fn rate(input: &str) -> Result<u64, IaGetError> {
    let number = rate_number(input).and_then(|text| text.parse::<f64>().ok());
    parse_rate(input, number.map(|value| value.to_bits()))
}

fn check_mtime_from_xml() {
    assert_eq!(mtime_from_xml(None), None);
    assert_eq!(mtime_from_xml(Some(1_735_965_174)), Some(1_735_965_174));
    assert_eq!(mtime_from_xml(Some(u64::MAX)), None);
}

#[test]
fn mtime_mtime_from_xml_converts_and_rejects_overflow() {
    check_mtime_from_xml();
}

#[test]
fn downloader_mtime_from_xml_converts_and_rejects_overflow() {
    check_mtime_from_xml();
}

#[test]
fn mtime_sync_file_mtime_skips_pre_epoch_times() {
    // A Last-Modified before 1970 has no Unix representation
    assert_eq!(sync_file_mtime(None, Some(5)), None);
    assert_eq!(sync_file_mtime(None, None), None);
}

#[test]
fn times_are_set_where_they_differ() {
    assert_eq!(sync_file_mtime(Some(7), Some(7)), None);
    assert_eq!(sync_file_mtime(Some(7), Some(8)), Some(7));
    assert_eq!(sync_file_mtime(Some(7), None), Some(7));
    assert_eq!(sync_file_mtime(Some(u64::MAX), None), None);
    assert_eq!(mtime_to_install(Some(1), Some(2)), Some(1), "the server's time wins");
    assert_eq!(mtime_to_install(None, Some(2)), Some(2));
    assert_eq!(mtime_to_install(None, Some(u64::MAX)), None);
    assert_eq!(mtime_to_install(None, None), None);
}

#[test]
fn last_modified_headers_are_http_dates() {
    let header = |text: &str| Some(text.as_bytes().to_vec());
    assert_eq!(
        parse_last_modified(&header("Wed, 21 Oct 2015 07:28:00 GMT")),
        Some(1_445_412_480)
    );
    assert_eq!(parse_last_modified(&header("yesterday")), None);
    assert_eq!(parse_last_modified(&Some(vec![0xff, 0xfe])), None);
    assert_eq!(parse_last_modified(&None), None);
}

#[test]
fn parse_rate_accepts_plain_bytes() {
    assert_eq!(rate("2048").unwrap(), 2048);
    assert_eq!(rate("0").unwrap(), 0);
    assert_eq!(rate("  512  ").unwrap(), 512);
}

#[test]
fn parse_rate_accepts_k_m_g_suffixes() {
    assert_eq!(rate("1K").unwrap(), 1024);
    assert_eq!(rate("512kb").unwrap(), 512 * 1024);
    assert_eq!(rate("1M").unwrap(), 1024 * 1024);
    assert_eq!(rate("2MB").unwrap(), 2 * 1024 * 1024);
    assert_eq!(rate("1G").unwrap(), 1024 * 1024 * 1024);
}

#[test]
fn parse_rate_accepts_fractional_rates() {
    assert_eq!(rate("1.5M").unwrap(), (1.5 * MB).round() as u64);
    assert_eq!(rate("0.5K").unwrap(), 512);
}

#[test]
fn parse_rate_is_case_insensitive_on_the_suffix() {
    assert_eq!(rate("1m").unwrap(), 1024 * 1024);
    assert_eq!(rate("2Gb").unwrap(), 2 * GB as u64);
}

#[test]
fn parse_rate_rejects_non_numeric_input() {
    for input in ["", "  ", "fast", "1X", "1.2.3M", "-5"] {
        assert!(rate(input).is_err(), "{input:?} must not parse as a rate");
    }
}

fn expected_rate(value: f64, multiplier: f64) -> u64 {
    (value * multiplier).round() as u64
}

#[test]
fn rates_round_like_double_precision_numbers() {
    let mut seed: u64 = 7;
    for _ in 0..50_000 {
        seed = seed.wrapping_mul(6364136223846793005).wrapping_add(1442695040888963407);
        let value = f64::from_bits(seed);
        if !value.is_finite() || value < 0.0 {
            continue;
        }
        assert_eq!(
            parse_rate("1", Some(value.to_bits())).unwrap(),
            expected_rate(value, 1.0),
            "{value:e}"
        );
        assert_eq!(
            parse_rate("1k", Some(value.to_bits())).unwrap(),
            expected_rate(value, 1024.0),
            "{value:e}"
        );
    }
    for text in ["0.1", "0.4999", "0.5", "1.5", "2.5", "123456.789", "1e18", "1e30", "1e-300", "-0"] {
        for (suffix, multiplier) in [("", 1.0), ("b", 1.0), ("K", 1024.0), ("MB", MB), ("g", GB)] {
            let value: f64 = text.parse().unwrap();
            assert_eq!(
                rate(&format!("{text}{suffix}")).unwrap(),
                expected_rate(value, multiplier),
                "{text}{suffix}"
            );
        }
    }
}

#[test]
fn rates_that_are_no_numbers_say_so() {
    assert!(matches!(rate(" "), Err(IaGetError::InvalidRate(text)) if text == " "));
    assert!(matches!(rate("inf"), Err(IaGetError::InvalidRate(text)) if text == "inf"));
    assert!(matches!(rate("-1"), Err(IaGetError::InvalidRate(text)) if text == "-1"));
    assert_eq!(
        rate("1X").unwrap_err().to_text(),
        "Invalid rate limit: invalid number in rate limit \"1X\" (expected e.g. \"1M\", \"512K\" or bytes/second)"
    );
}

#[test]
fn disabled_limiter_never_waits() {
    for limit in [None, Some(0)] {
        let mut limiter = RateLimiter::new(limit, 1_000);
        assert!(!limiter.is_limiting(10_000));
        assert_eq!(limiter.pace(10_000, 5_000, 2_000), 0);
    }
    let limiter = RateLimiter::new(Some(5), 0);
    assert!(!limiter.is_limiting(0));
}

#[test]
fn enabled_limiter_paces_to_the_limit() {
    // 1_000_000 bytes/s: a chunk of that size is paced to one second
    let second = 1_000_000_000;
    let mut limiter = RateLimiter::new(Some(1_000_000), 0);
    assert!(limiter.is_limiting(1_000_000));
    assert_eq!(limiter.pace(1_000_000, second, 0), second);
    // The next chunk arrives half a second late, which is made good
    assert_eq!(limiter.pace(1_000_000, second, second + second / 2), second / 2);
    // One that took longer than its budget does not bank the surplus
    assert_eq!(limiter.pace(1_000_000, second, 9 * second), 0);
    assert_eq!(limiter.pace(1_000_000, second, 9 * second), second);
}

#[test]
fn retry_parse_retry_after_seconds() {
    assert_eq!(parse_retry_after("30"), Some(30));
    assert_eq!(parse_retry_after("  5 "), Some(5));
    assert_eq!(parse_retry_after("0"), Some(0));
    assert_eq!(parse_retry_after("999999"), Some(MAX_RETRY_AFTER_SECS));
    assert_eq!(parse_retry_after(""), None);
    assert_eq!(parse_retry_after("next tuesday"), None);
}

#[test]
fn parse_retry_after_http_date() {
    assert_eq!(parse_retry_after("Wed, 21 Oct 2015 07:28:00 GMT"), Some(0));

    let now = std::time::SystemTime::now()
        .duration_since(std::time::UNIX_EPOCH)
        .expect("valid clock")
        .as_secs();
    let at = |secs: u64| {
        httpdate::fmt_http_date(std::time::UNIX_EPOCH + std::time::Duration::from_secs(secs))
    };
    let secs = parse_retry_after(&at(now + 300)).expect("an HTTP-date must parse");
    assert!((299..=301).contains(&secs), "a 300s-out date must yield ~300s, got {secs}");
    assert_eq!(parse_retry_after(&at(now + 86_400)), Some(MAX_RETRY_AFTER_SECS));
}

#[test]
fn retry_dates_count_from_the_given_moment() {
    let date = "Wed, 21 Oct 2015 07:28:00 GMT";
    let at = 1_445_412_480_i128 * 1_000_000_000;
    assert_eq!(parse_retry_after_at(date, at - 60_000_000_000), Some(60));
    assert_eq!(parse_retry_after_at(date, at), Some(0));
    assert_eq!(parse_retry_after_at(date, at + 1), Some(0));
    assert_eq!(parse_retry_after_at(date, 0), Some(MAX_RETRY_AFTER_SECS));
    // A clock before the epoch is farther from the date
    let start = "Thu, 01 Jan 1970 00:00:00 GMT";
    assert_eq!(parse_retry_after_at(start, 0), Some(0));
    assert_eq!(parse_retry_after_at(start, -60_000_000_000), Some(60));
    assert_eq!(parse_retry_after_at(start, -59_999_999_999), Some(59));
    assert_eq!(parse_retry_after_at(start, i128::MIN), Some(MAX_RETRY_AFTER_SECS));
    assert_eq!(parse_retry_after_at(start, i128::MAX), Some(0));
}

#[test]
fn rates_ignore_case_and_an_added_b() {
    for text in ["1k", "2.5m", "3G", " 1e3K", "1E3m", "0g", "x1k"] {
        let (upper, lower) = (text.to_ascii_uppercase(), text.to_ascii_lowercase());
        assert_eq!(rate(&upper).ok(), rate(&lower).ok(), "{text}");
        assert_eq!(rate(&format!("{text}B")).ok(), rate(text).ok(), "{text}");
        assert_eq!(rate(&format!("{text}b")).ok(), rate(text).ok(), "{text}");
    }
    assert_eq!(rate("1E3").ok(), rate("1e3").ok());
    assert_eq!(rate("1E3").unwrap(), 1000);
}

fn check_backoff_delay() {
    let d1 = backoff_delay(1);
    assert!((4000..=6000).contains(&d1), "attempt 1: {d1:?}");
    let d2 = backoff_delay(2);
    assert!((8000..=12000).contains(&d2), "attempt 2: {d2:?}");
    let d60 = backoff_delay(60);
    assert!(
        (48000..=72000).contains(&d60),
        "attempt 60 must be capped at 60s ±20%: {d60:?}"
    );
}

#[test]
fn retry_backoff_delay_stays_within_bounds() {
    check_backoff_delay();
}

#[test]
fn downloader_backoff_delay_stays_within_bounds() {
    check_backoff_delay();
}

#[test]
fn jitter_stays_within_a_fifth() {
    let now = jitter_ms(10_000);
    assert!((8_000..=12_000).contains(&now), "{now}");
    for seed in [0, 1, 42, u64::MAX, 0x9E37_79B9_7F4A_7C15] {
        for value in [0, 4, 5_000, 60_000] {
            let jittered = jitter_with_seed(value, seed);
            assert!(jittered >= value * 80 / 100 && jittered <= value * 120 / 100);
        }
        assert_eq!(jitter_with_seed(u64::MAX, seed), u64::MAX / 100);
        for attempt in [0, 1, 5, 60, u32::MAX] {
            assert!(backoff_with_seed(attempt, seed) <= MAX_RETRY_DELAY_MS + MAX_RETRY_DELAY_MS / 5);
        }
    }
}

#[test]
fn retries_end() {
    let mut tracker = RetryTracker::new();
    for attempt in 1..=MAX_RETRIES {
        match tracker.record_with_seed("Network error", "boom", None, 3) {
            RetryStep::Wait { attempt: n, server_requested, delay_ms } => {
                assert_eq!(n, attempt);
                assert!(!server_requested);
                assert_eq!(delay_ms, backoff_with_seed(attempt, 3) as u128);
            }
            RetryStep::GiveUp(e) => panic!("gave up at {attempt}: {e:?}"),
        }
    }
    match tracker.record_with_seed("Network error", "boom", None, 3) {
        RetryStep::GiveUp(e) => {
            assert!(e.to_text().contains("boom"), "{}", e.to_text());
        }
        RetryStep::Wait { .. } => panic!("must give up"),
    }
}

#[test]
fn a_server_may_ask_for_its_own_wait() {
    let mut tracker = RetryTracker::new();
    match tracker.record("Server busy", "503", Some(30)) {
        RetryStep::Wait { delay_ms, server_requested, .. } => {
            assert_eq!(delay_ms, 30_000);
            assert!(server_requested);
        }
        RetryStep::GiveUp(e) => panic!("{e:?}"),
    }
}

#[test]
fn waits_are_cut_into_slices() {
    let mut wait = Wait { remaining_ms: INTERRUPT_CHECK_INTERVAL_MS * 2 + 1 };
    let mut slept = 0;
    loop {
        match wait.next(true) {
            WaitStep::Sleep(ms) => {
                assert!(ms <= INTERRUPT_CHECK_INTERVAL_MS);
                slept += ms;
            }
            WaitStep::Over => break,
            WaitStep::Interrupted => panic!("nobody asked to stop"),
        }
    }
    assert_eq!(slept, INTERRUPT_CHECK_INTERVAL_MS * 2 + 1);

    let mut wait = Wait { remaining_ms: 10_000 };
    let _ = wait.next(true);
    assert!(matches!(wait.next(false), WaitStep::Interrupted));
}

fn check_ctrl_c() {
    let mut signal = StopSignal::new();
    assert!(signal.running);
    let (action, line) = handle_ctrl_c(&mut signal);
    assert!(
        matches!(action, CtrlCAction::GracefulStop),
        "the first press must stop the batch gracefully"
    );
    assert!(line.plain().contains("finishing current operation"));
    assert!(!signal.running, "the first press must flag the batch to stop");

    let (action, line) = handle_ctrl_c(&mut signal);
    assert!(
        matches!(action, CtrlCAction::QuitNow),
        "the second press must ask the handler to exit the process"
    );
    assert_eq!(line.plain(), "✘ Ctrl+C Quitting now.");
    let (action, _) = handle_ctrl_c(&mut signal);
    assert_eq!(action, CtrlCAction::QuitNow);
    assert_eq!(signal.presses, 3, "every press is counted");
    assert!(!signal.running);
}

#[test]
fn the_count_of_presses_wraps_around() {
    let mut signal = StopSignal { running: true, presses: u32::MAX };
    let (action, _) = handle_ctrl_c(&mut signal);
    assert_eq!(action, CtrlCAction::QuitNow);
    assert_eq!(signal.presses, 0);
    assert!(signal.running);
}

#[test]
fn signal_second_ctrl_c_press_requests_immediate_quit() {
    check_ctrl_c();
}

#[test]
fn downloader_second_ctrl_c_press_requests_immediate_quit() {
    check_ctrl_c();
}

#[test]
fn hashes_are_those_of_md5() {
    assert_eq!(md5_hex(b""), "d41d8cd98f00b204e9800998ecf8427e");
    assert_eq!(md5_hex(b"hello"), "5d41402abc4b2a76b9719d911017c592");
    let mut pieces = FileHasher::new();
    pieces.feed(b"he", true).unwrap();
    pieces.feed(b"", true).unwrap();
    pieces.feed(b"llo", true).unwrap();
    assert_eq!(pieces.finish(), md5_hex(b"hello"));
    let mut stopped = FileHasher::new();
    assert!(matches!(stopped.feed(b"x", false), Err(IaGetError::Interrupted)));
    assert_eq!(digest_hex(&vec![0x00, 0x0f, 0xa0, 0xff]), "000fa0ff");
    assert!(hash_matches("AbC", "aBc") && !hash_matches("ab", "abc"));
    assert!(shows_hash_progress(3_000_000) && !shows_hash_progress(2_097_152));
}

#[test]
fn verify_size_mismatch_short_circuits_before_hashing() {
    let expected = Some(md5_hex(b"totally different content"));
    assert!(!needs_existing_hash(&PathState::Regular, &Ok(5), &expected, Some(100)));
    let status = check_existing_file(
        &PathState::Regular,
        &Ok(5),
        &Ok(String::new()),
        &expected,
        Some(100),
    )
    .unwrap();
    assert!(matches!(status, ExistingFileStatus::Invalid), "got {status:?}");
}

#[test]
fn verify_unreadable_existing_file_is_reported_not_redownloaded() {
    let status = check_existing_file(
        &PathState::Directory,
        &Ok(0),
        &Ok(String::new()),
        &Some(md5_hex(b"x")),
        None,
    )
    .unwrap();
    match status {
        ExistingFileStatus::Unreadable(reason) => {
            assert!(!reason.is_empty(), "the reason must name the problem");
        }
        other => panic!("expected Unreadable, got {other:?}"),
    }
}

#[test]
fn symlink_at_final_path_is_unreadable() {
    let status = check_existing_file(
        &PathState::Symlink,
        &Ok(16),
        &Ok(md5_hex(b"matching-content")),
        &Some(md5_hex(b"matching-content")),
        Some(16),
    )
    .unwrap();
    match status {
        ExistingFileStatus::Unreadable(reason) => {
            assert!(reason.contains("symlink"), "got: {reason}");
        }
        other => panic!("expected Unreadable, got {other:?}"),
    }
}

#[test]
fn fifo_at_final_path_is_unreadable() {
    let status =
        check_existing_file(&PathState::Special, &Ok(0), &Ok(String::new()), &None, Some(16))
            .unwrap();
    match status {
        ExistingFileStatus::Unreadable(reason) => {
            assert!(reason.contains("non-regular"), "got: {reason}");
        }
        other => panic!("expected Unreadable, got {other:?}"),
    }
}

#[test]
fn existing_copies_are_judged_by_size_and_hash() {
    let md5 = Some(md5_hex(b"hello").to_uppercase());
    let read = |hash: &str| {
        check_existing_file(
            &PathState::Regular,
            &Ok(5),
            &Ok(hash.to_string()),
            &md5,
            Some(5),
        )
        .unwrap()
    };
    assert!(needs_existing_hash(&PathState::Regular, &Ok(5), &md5, Some(5)));
    assert!(matches!(
        read(&md5_hex(b"hello")),
        ExistingFileStatus::Verified { md5: Some(hash) } if hash == md5_hex(b"hello")
    ));
    assert!(matches!(read(&md5_hex(b"world")), ExistingFileStatus::Invalid));
    assert!(matches!(
        check_existing_file(
            &PathState::NotFound,
            &Ok(0),
            &Ok(String::new()),
            &md5,
            Some(5)
        )
        .unwrap(),
        ExistingFileStatus::Missing
    ));
    assert!(matches!(
        check_existing_file(
            &PathState::Regular,
            &Ok(5),
            &Err(IaGetError::Interrupted),
            &md5,
            Some(5)
        ),
        Err(IaGetError::Interrupted)
    ));
    // Without a hash to compare with, the size decides
    assert!(matches!(
        check_existing_file(&PathState::Regular, &Ok(5), &Ok(String::new()), &None, Some(5))
            .unwrap(),
        ExistingFileStatus::Verified { md5: None }
    ));
    assert_eq!(size_mismatch(5, Some(6)), Some((5, 6)));
    assert_eq!(size_mismatch(5, Some(5)), None);
    assert_eq!(size_mismatch(5, None), None);
    assert!(print_verified_hash(Some("abc")).plain().contains("abc"));
    assert_ne!(print_verified_hash(None).plain(), print_verified_hash(Some("")).plain());
}

#[test]
fn downloads_are_verified_by_size_and_hash() {
    let md5 = Some(md5_hex(b"hello"));
    assert!(needs_download_hash(&Ok(5), &md5, Some(5)));
    assert!(!needs_download_hash(&Ok(4), &md5, Some(5)));
    assert!(!needs_download_hash(&Ok(5), &None, Some(5)));
    let (outcome, _) = verify_part(&Ok(5), &Ok(md5_hex(b"hello")), &md5, Some(5)).unwrap();
    assert!(matches!(outcome, PartVerification::Valid));
    let (outcome, line) = verify_part(&Ok(5), &Ok(md5_hex(b"world")), &md5, Some(5)).unwrap();
    assert!(matches!(outcome, PartVerification::Mismatch));
    assert!(line.unwrap().plain().contains(&md5_hex(b"world")));
    let (outcome, _) = verify_part(&Ok(4), &Ok(String::new()), &md5, Some(5)).unwrap();
    assert!(matches!(outcome, PartVerification::Mismatch));
    let unreadable = IaGetError::from(IoFault {
        kind: IoKind::Other,
        message: "locked".to_string(),
    });
    let (outcome, _) = verify_part(&Err(unreadable), &Ok(String::new()), &md5, Some(5)).unwrap();
    assert!(
        matches!(&outcome, PartVerification::Unreadable(reason) if reason.contains("locked")),
        "{outcome:?}"
    );
    assert!(matches!(
        verify_part(&Ok(5), &Err(IaGetError::Interrupted), &md5, Some(5)),
        Err(IaGetError::Interrupted)
    ));
}

#[test]
fn dangling_symlink_at_final_path_is_unreadable_not_missing() {
    let gone = || {
        let fault = IoFault { kind: IoKind::Other, message: "No such file".to_string() };
        io_error_with_path("out/file.bin", fault)
    };
    let status =
        check_existing_file(&PathState::Symlink, &Err(gone()), &Err(gone()), &None, Some(16))
            .unwrap();
    match status {
        ExistingFileStatus::Unreadable(reason) => {
            assert!(reason.contains("symlink"), "got: {reason}");
        }
        other => panic!("expected Unreadable, got {other:?}"),
    }
}

#[test]
fn the_clock_is_read_in_whole_seconds() {
    let early = || Err(BeforeEpoch { by_nanos: 1_500, message: "too early".to_string() });
    assert_eq!(secs_at(Ok(0)).unwrap(), 0);
    assert_eq!(secs_at(Ok(1_999_999_999)).unwrap(), 1);
    assert_eq!(secs_at(Ok(u64::MAX as u128 * 1_000_000_000)).unwrap(), u64::MAX);
    assert_eq!(secs_at(Ok(u128::MAX)).unwrap(), u64::MAX);
    let err = secs_at(early()).unwrap_err();
    assert_eq!(err.to_text(), "Failed to get the system time: too early");
    assert_eq!(nanos_at(&Ok(17)), 17);
    assert_eq!(nanos_at(&early()), -1_500);
    // Two looks at the clock agree, but for the time between them
    let nanos = now_nanos();
    let secs = now_secs().unwrap() as i128;
    assert!(secs.abs_diff(nanos / 1_000_000_000) <= 60, "{secs} and {nanos}");
    assert!(secs > 1_600_000_000);
}

#[test]
fn moments_take_their_seed_from_the_time() {
    assert_eq!(seed_at(7), 7);
    assert_eq!(seed_at((1 << 64) + 5), 5);
    assert_eq!(seed_at(-1), 0x9E37_79B9_7F4A_7C15);
    assert_eq!(Moment::at((1 << 64) + 5), Moment { now_nanos: (1 << 64) + 5, seed: 5 });
    assert_eq!(Moment::at(-3), Moment { now_nanos: -3, seed: 0x9E37_79B9_7F4A_7C15 });
    let now = Moment::now();
    assert_eq!(now, Moment::at(now.now_nanos));
}
