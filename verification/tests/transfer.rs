//! Transfers, attempts and batches against a made-up server and disk.

use ia_get::downloader::attempts::{AttemptAction, Attempts, DownloadOutcome};
use ia_get::downloader::batch::{Batch, BatchAction};
use ia_get::downloader::file::{part_path, FileAction, FileOutcome, FileRun, FileStage};
use ia_get::downloader::retry::{Wait, WaitStep, MAX_RETRIES};
use ia_get::downloader::stream::{
    assess_streamed_body, is_disk_full_error, is_retryable_status, partial_content_offset,
    prefix_trusted, progress_total, transfer_url, Moment, RedirectStep, Redirects, ResponseHead,
    StreamedBody, Transfer, TransferAction, MAX_REDIRECTS,
};
use ia_get::downloader::verify::{
    check_existing_file, verify_part, FileHasher, PathState,
};
use ia_get::downloader::DownloadTask;
use ia_get::cookie::{parse_netscape_cookies, CookieSource};
use ia_get::error::{io_error_with_path, IaGetError, IoFault, IoKind};
use ia_get::fs::{directories_to_guard, ensure_not_symlink, parent_directory, refuse_symlinks};
use ia_get::link::Link;
use ia_get::styled::Line;
use std::collections::{BTreeMap, BTreeSet};

const DATE: &str = "Wed, 21 Oct 2015 07:28:00 GMT";
const DATE_SECS: u64 = 1_445_412_480;

fn md5_hex(content: &[u8]) -> String {
    let mut hasher = FileHasher::new();
    hasher.feed(content, true).unwrap();
    hasher.finish()
}

/// A reply of the made-up server.
#[derive(Clone)]
struct Reply {
    status: u16,
    body: Vec<u8>,
    /// The connection breaks behind the body.
    breaks: bool,
    /// The body is the whole file, of which a `Range` header asks for a part.
    ranged: bool,
    content_range: Option<&'static str>,
    retry_after: Option<&'static str>,
    last_modified: Option<&'static str>,
}

fn reply(status: u16, body: &[u8]) -> Reply {
    Reply {
        status,
        body: body.to_vec(),
        breaks: false,
        ranged: false,
        content_range: None,
        retry_after: None,
        last_modified: None,
    }
}

fn ranged(body: &[u8]) -> Reply {
    Reply { ranged: true, ..reply(200, body) }
}

fn raw(text: Option<&str>) -> Option<Vec<u8>> {
    text.map(|t| t.as_bytes().to_vec())
}

/// A server that answers from a list, and then with the same reply for ever.
struct Server {
    script: Vec<Reply>,
    fallback: Reply,
    ranges: Vec<Option<u64>>,
    waits: Vec<(String, u128, bool)>,
}

fn server(script: Vec<Reply>, fallback: Reply) -> Server {
    Server { script, fallback, ranges: vec![], waits: vec![] }
}

impl Server {
    fn request(&mut self, range: Option<String>) -> (ResponseHead, Vec<u8>, bool) {
        let start = range.map(|value| {
            let digits = value.strip_prefix("bytes=").unwrap().strip_suffix('-').unwrap();
            digits.parse::<u64>().unwrap()
        });
        self.ranges.push(start);
        let next =
            if self.script.is_empty() { self.fallback.clone() } else { self.script.remove(0) };
        let mut head = ResponseHead {
            status: next.status,
            location: None,
            retry_after: raw(next.retry_after),
            content_range: raw(next.content_range),
            last_modified: raw(next.last_modified),
            content_length: Some(next.body.len() as u64),
        };
        let mut body = next.body.clone();
        if next.ranged {
            if let Some(from) = start {
                if from >= body.len() as u64 {
                    head.status = 416;
                    body.clear();
                } else {
                    head.status = 206;
                    let range = format!("bytes {}-{}/{}", from, body.len() - 1, body.len());
                    head.content_range = raw(Some(&range));
                    body = body.split_off(from as usize);
                }
            }
        }
        (head, body, next.breaks)
    }
}

/// Transfers a file into `part`. Where `stop_after` requests were sent, the
/// user asks to stop.
fn run_download(
    server: &mut Server,
    part: &mut Vec<u8>,
    expected_size: Option<u64>,
    stop_after: Option<usize>,
) -> Result<Option<u64>, IaGetError> {
    let mut transfer = Transfer::new(expected_size);
    let moment = Moment { now_nanos: 0, seed: 5 };
    let mut action = transfer.measured(part.len() as u64);
    let mut answered: Option<(Vec<u8>, bool)> = None;
    loop {
        let running = match stop_after {
            Some(n) => server.ranges.len() < n,
            None => true,
        };
        match action {
            TransferAction::Send { range } => {
                let (head, body, breaks) = server.request(range);
                answered = Some((body, breaks));
                action = transfer.answered(&head, moment);
            }
            TransferAction::Stream { reset } => {
                if reset {
                    part.clear();
                }
                let base = part.len() as u64;
                let (body, breaks) = answered.take().unwrap();
                part.extend_from_slice(&body);
                action = if !running {
                    transfer.broken(IaGetError::Interrupted, moment)
                } else if breaks {
                    let error = IaGetError::Network {
                        detail: "connection reset".to_string(),
                        source: None,
                    };
                    transfer.broken(error, moment)
                } else {
                    transfer.streamed(base, body.len() as u64, moment)
                };
            }
            TransferAction::Wait { reset, kind, delay_ms, server_requested, .. } => {
                if reset {
                    part.clear();
                }
                server.waits.push((kind, delay_ms, server_requested));
                let mut wait = Wait { remaining_ms: delay_ms };
                loop {
                    match wait.next(running) {
                        WaitStep::Sleep(_) => {}
                        WaitStep::Over => break,
                        WaitStep::Interrupted => return Err(IaGetError::Interrupted),
                    }
                }
                action = transfer.measured(part.len() as u64);
            }
            TransferAction::Finish { reset, outcome } => {
                if reset {
                    part.clear();
                }
                return outcome;
            }
        }
    }
}

#[test]
fn stream_http_500_body_is_not_written_to_file() {
    let content = b"0123456789abcdef";
    let page = b"<html><head><title>500 Internal Server Error</title></head><body>nginx</body></html>";
    let mut server =
        server(vec![reply(500, page), reply(500, page), reply(200, content)], reply(200, b""));
    let mut part = vec![];
    let result = run_download(&mut server, &mut part, Some(content.len() as u64), None);
    assert!(result.is_ok(), "expected success, got {:?}", result.err());
    assert_eq!(part, content, "error body must not be written to the file");
    assert_eq!(server.ranges.len(), 3);
}

#[test]
fn stream_empty_response_retries_then_fails() {
    let mut server = server(vec![reply(200, b"")], reply(200, b""));
    let mut part = vec![];
    let result = run_download(&mut server, &mut part, Some(10), None);
    assert!(
        matches!(result, Err(IaGetError::Network { .. })),
        "expected a Network error, got {:?}",
        result.ok()
    );
    assert_eq!(part.len(), 0);
    assert_eq!(server.ranges.len(), 1 + MAX_RETRIES as usize);
}

#[test]
fn stream_empty_response_with_unknown_size_is_accepted() {
    let mut server = server(vec![reply(200, b"")], reply(200, b""));
    let mut part = vec![];
    let result = run_download(&mut server, &mut part, None, None);
    assert!(
        result.is_ok(),
        "an empty body with unknown size must succeed, got {:?}",
        result.err()
    );
    assert_eq!(server.ranges.len(), 1, "a trusted empty body must not be retried");
    assert_eq!(part.len(), 0);
}

#[test]
fn stream_resume_after_mid_stream_disconnect() {
    let full = b"01234567890123456789";
    let mut server = server(
        vec![Reply { breaks: true, ..reply(200, &full[..8]) }, ranged(full)],
        reply(206, b""),
    );
    let mut part = vec![];
    run_download(&mut server, &mut part, Some(full.len() as u64), None)
        .expect("download should succeed");
    assert_eq!(part, full);
    assert_eq!(server.ranges, vec![None, Some(8)]);
}

#[test]
fn stream_resume_sends_correct_offset_to_range_aware_server() {
    let full = b"01234567890123456789";
    let mut server = server(vec![ranged(full)], reply(200, b""));
    let mut part = full[..8].to_vec();
    run_download(&mut server, &mut part, Some(full.len() as u64), None)
        .expect("resume must succeed against a Range-aware server");
    assert_eq!(part, full, "the resume must append the correct tail, not a wrong offset");
    assert_eq!(
        server.ranges,
        vec![Some(8)],
        "the resume must request bytes=8-, exactly the .part size"
    );
}

#[test]
fn stream_partial_content_offset_mismatch_resets_file() {
    let full = b"0123456789";
    let mut server = server(
        vec![Reply { content_range: Some("bytes 0-9/10"), ..reply(206, full) }],
        reply(200, full),
    );
    let mut part = b"XXXX".to_vec();
    run_download(&mut server, &mut part, Some(full.len() as u64), None)
        .expect("download should succeed");
    assert_eq!(part, full, "a mismatched 206 must be discarded and re-fetched, not appended");
    assert_eq!(server.ranges, vec![Some(4), None]);
    assert_eq!(server.waits[0].0, "Bad 206");
}

#[test]
fn stream_partial_content_without_range_header_resets_file() {
    let full = b"0123456789";
    let mut server = server(vec![reply(206, full)], reply(200, full));
    let mut part = b"XXXX".to_vec();
    run_download(&mut server, &mut part, Some(full.len() as u64), None)
        .expect("download should succeed");
    assert_eq!(part, full, "a 206 without Content-Range must be discarded and re-fetched");
    assert_eq!(server.ranges, vec![Some(4), None]);
}

#[test]
fn http_204_on_a_resume_is_fatal_not_complete() {
    let mut server = server(vec![reply(204, b"")], reply(200, b""));
    let mut part = b"XXXX".to_vec();
    let result = run_download(&mut server, &mut part, None, None);
    assert!(
        matches!(result, Err(IaGetError::Network { .. })),
        "expected a Network error, got {:?}",
        result.ok()
    );
    assert_eq!(server.ranges.len(), 1, "a 204 must not be retried");
}

#[test]
fn redirect_target_gets_the_cookie_header() {
    let source = CookieSource::Raw("session=abc".to_string());
    let mut redirects = Redirects::new(Link::parse("http://127.0.0.1:1/file.bin").unwrap(), None);
    let head = redirect(302, Some("http://127.0.0.1:2/file.bin"));
    assert!(matches!(redirects.follow(&head), RedirectStep::Follow));
    assert_eq!(redirects.url.href, "http://127.0.0.1:2/file.bin");
    assert_eq!(
        redirects.cookie_header(Some(&source)).unwrap().as_deref(),
        Some("session=abc"),
        "the redirect target must see the cookie header"
    );
}

#[test]
fn stream_full_200_response_resets_untrusted_prefix() {
    let full = b"0123456789";
    let mut server = server(vec![reply(200, full)], reply(200, b""));
    let mut part = b"XXXXXX".to_vec();
    run_download(&mut server, &mut part, Some(full.len() as u64), None)
        .expect("download should succeed");
    assert_eq!(part, full, "200 response must replace the local prefix, not append to it");
    assert_eq!(server.ranges, vec![Some(6)]);
}

#[test]
fn stream_http_416_yields_range_not_satisfiable() {
    let mut server = server(vec![reply(416, b"Range not satisfiable")], reply(416, b""));
    let mut part = b"XXXX".to_vec();
    let result = run_download(&mut server, &mut part, Some(100), None);
    assert!(
        matches!(result, Err(IaGetError::RangeNotSatisfiable)),
        "expected RangeNotSatisfiable, got {:?}",
        result
    );
    assert_eq!(server.ranges.len(), 1, "416 must not be retried");
    assert_eq!(server.ranges, vec![Some(4)]);
}

#[test]
fn stream_http_404_fails_immediately() {
    let mut server = server(vec![reply(404, b"not found")], reply(404, b""));
    let mut part = vec![];
    let result = run_download(&mut server, &mut part, Some(10), None);
    match result {
        Err(IaGetError::Network { detail, .. }) => {
            assert_eq!(detail, "Server responded with HTTP 404 Not Found Not Found");
        }
        other => panic!("expected a Network error, got {other:?}"),
    }
    assert_eq!(server.ranges.len(), 1, "404 must not be retried");
    assert_eq!(part.len(), 0, "error body must not be written");
}

#[test]
fn stream_retry_after_header_is_respected() {
    let content = b"retry-after-content";
    let mut server = server(
        vec![Reply { retry_after: Some("1"), ..reply(429, b"") }, reply(200, content)],
        reply(429, b""),
    );
    let mut part = vec![];
    let result = run_download(&mut server, &mut part, Some(content.len() as u64), None);
    assert!(result.is_ok(), "expected success, got {:?}", result.err());
    assert_eq!(server.waits, vec![("HTTP 429 Too Many Requests".to_string(), 1_000, true)]);
    assert_eq!(part, content);
}

#[test]
fn stream_last_modified_header_is_captured() {
    let content = b"0123456789abcdef";
    let mut server = server(
        vec![Reply { last_modified: Some(DATE), ..reply(200, content) }],
        reply(200, b""),
    );
    let mut part = vec![];
    let mtime = run_download(&mut server, &mut part, Some(content.len() as u64), None)
        .expect("download should succeed");
    assert_eq!(part, content);
    assert_eq!(mtime, Some(DATE_SECS));
}

#[test]
fn stream_interrupt_during_backoff_stops_retries() {
    let mut server = server(vec![reply(429, b"")], reply(429, b""));
    let mut part = vec![];
    let result = run_download(&mut server, &mut part, Some(10), Some(1));
    assert!(
        matches!(result, Err(IaGetError::Interrupted)),
        "an interrupt during the backoff wait must abort the retries, got {result:?}"
    );
    assert!(
        (1..=3).contains(&server.ranges.len()),
        "at most one extra retry may follow the interrupt, got {}",
        server.ranges.len()
    );
}

#[test]
fn stream_interrupt_during_stalled_body_stops_waiting_for_chunks() {
    let mut server = server(vec![reply(200, b"")], reply(200, b""));
    let mut part = vec![];
    let result = run_download(&mut server, &mut part, Some(10), Some(1));
    assert!(
        matches!(result, Err(IaGetError::Interrupted)),
        "a Ctrl+C during a stalled body must abort the download, got {:?}",
        result.ok()
    );
    assert_eq!(server.ranges.len(), 1);
}

#[test]
fn a_truncated_body_is_resumed() {
    let full = b"01234567890123456789";
    let mut server = server(vec![reply(200, &full[..8]), ranged(full)], reply(500, b""));
    let mut part = vec![];
    run_download(&mut server, &mut part, Some(20), None).expect("download should succeed");
    assert_eq!(part, full);
    assert_eq!(server.waits[0].0, "Incomplete body");
    assert_eq!(server.ranges, vec![None, Some(8)]);
}

fn content_range(range: Option<&str>) -> Option<Vec<u8>> {
    raw(range)
}

fn check_basic_ranges() {
    assert_eq!(partial_content_offset(&content_range(Some("bytes 8-19/20")), 8), Some(true));
    assert_eq!(partial_content_offset(&content_range(Some("bytes 0-9/20")), 8), Some(false));
    assert_eq!(partial_content_offset(&content_range(Some("bytes 8-19/*")), 9), Some(false));
    assert_eq!(partial_content_offset(&content_range(None), 8), None);
    assert_eq!(partial_content_offset(&content_range(Some("bytes */20")), 8), None);
    assert_eq!(partial_content_offset(&content_range(Some("bytes 8-19")), 8), None);
}

#[test]
fn downloader_partial_content_offset_parses_matching_and_mismatching_ranges() {
    check_basic_ranges();
}

#[test]
fn stream_partial_content_offset_parses_matching_and_mismatching_ranges() {
    check_basic_ranges();
    assert_eq!(
        partial_content_offset(&content_range(Some("bytes 8-x/20")), 8),
        None,
        "an unparsable end is malformed"
    );
    assert_eq!(
        partial_content_offset(&content_range(Some("bytes 9-8/20")), 8),
        None,
        "an end before the start is malformed"
    );
    assert_eq!(
        partial_content_offset(&content_range(Some("bytes 8-19/10")), 8),
        None,
        "a total shorter than the end is malformed"
    );
    assert_eq!(
        partial_content_offset(&content_range(Some("bytes 8-20/20")), 8),
        None,
        "a total equal to the (inclusive) end is malformed"
    );
}

fn check_retryable() {
    for code in [408u16, 425, 429, 500, 502, 503, 504] {
        assert!(is_retryable_status(code), "{} must be retryable", code);
    }
    for code in [200u16, 206, 301, 400, 401, 403, 404, 416] {
        assert!(!is_retryable_status(code), "{} must not be retryable", code);
    }
}

#[test]
fn downloader_is_retryable_status_covers_server_errors() {
    check_retryable();
}

#[test]
fn stream_is_retryable_status_covers_server_errors() {
    check_retryable();
}

fn redirect(status: u16, location: Option<&str>) -> ResponseHead {
    ResponseHead {
        status,
        location: raw(location),
        retry_after: None,
        content_range: None,
        last_modified: None,
        content_length: None,
    }
}

#[test]
fn redirects_resolve_and_end() {
    let mut redirects = Redirects::new(Link::parse("https://archive.org/download/i/f").unwrap(), None);
    assert!(matches!(redirects.follow(&redirect(200, Some("/x"))), RedirectStep::Answer));
    assert!(matches!(redirects.follow(&redirect(304, None)), RedirectStep::Answer));
    assert!(matches!(redirects.follow(&redirect(301, Some("../g"))), RedirectStep::Follow));
    assert_eq!(redirects.url.href, "https://archive.org/download/g");
    match redirects.follow(&redirect(307, None)) {
        RedirectStep::Fail(e) => assert_eq!(
            e.to_text(),
            "Network error: HTTP 307 Temporary Redirect without a usable Location header"
        ),
        other => panic!("{other:?}"),
    }
    match redirects.follow(&redirect(302, Some("https://["))) {
        RedirectStep::Fail(e) => assert!(
            e.to_text().starts_with("Network error: invalid redirect target \"https://[\": "),
            "{}",
            e.to_text()
        ),
        other => panic!("{other:?}"),
    }
    let range = Some("bytes=5-".to_string());
    let mut redirects = Redirects::new(Link::parse("https://archive.org/0").unwrap(), range);
    for n in 1..=MAX_REDIRECTS {
        let target = format!("/{n}");
        assert!(matches!(redirects.follow(&redirect(302, Some(&target))), RedirectStep::Follow));
        // Every request carries the range
        assert_eq!(redirects.url.path, target);
        assert_eq!(redirects.range.as_deref(), Some("bytes=5-"));
    }
    match redirects.follow(&redirect(302, Some("/more"))) {
        RedirectStep::Fail(e) => assert_eq!(
            e.to_text(),
            "Network error: redirect limit exceeded (10 redirects)"
        ),
        other => panic!("{other:?}"),
    }
}

#[test]
fn scoped_cookies_do_not_follow_a_redirect_away() {
    let cookies = parse_netscape_cookies("archive.org\tFALSE\t/\tFALSE\t0\ta\tb\n");
    let source = CookieSource::Netscape(cookies);
    let mut redirects = Redirects::new(Link::parse("https://archive.org/f").unwrap(), None);
    assert_eq!(redirects.cookie_header(Some(&source)).unwrap().as_deref(), Some("a=b"));
    let step = redirects.follow(&redirect(302, Some("https://example.com/f")));
    assert!(matches!(step, RedirectStep::Follow));
    assert_eq!(redirects.cookie_header(Some(&source)).unwrap(), None);
}

#[test]
fn bodies_are_assessed_by_their_size() {
    assert_eq!(assess_streamed_body(0, 0, Some(1)), StreamedBody::Empty);
    assert_eq!(assess_streamed_body(0, 0, Some(0)), StreamedBody::Complete);
    assert_eq!(assess_streamed_body(0, 0, None), StreamedBody::Complete);
    assert_eq!(
        assess_streamed_body(3, 4, Some(8)),
        StreamedBody::Incomplete { received: 7, expected: 8 }
    );
    assert_eq!(assess_streamed_body(4, 4, Some(8)), StreamedBody::Complete);
    assert_eq!(assess_streamed_body(9, 4, Some(8)), StreamedBody::Complete);
    assert_eq!(progress_total(Some(5), 4, Some(8)), 9);
    assert_eq!(progress_total(None, 4, Some(8)), 8);
    assert_eq!(progress_total(None, 4, None), 4);
}

#[test]
fn only_a_matching_206_continues_a_file() {
    let head = |status: u16, range: Option<&str>| ResponseHead {
        content_range: raw(range),
        ..redirect(status, None)
    };
    assert!(prefix_trusted(&head(206, Some("bytes 4-9/10")), 4));
    assert!(!prefix_trusted(&head(206, Some("bytes 5-9/10")), 4));
    assert!(!prefix_trusted(&head(206, None), 4));
    assert!(!prefix_trusted(&head(200, Some("bytes 4-9/10")), 4));
}

#[test]
fn a_full_disk_ends_a_transfer() {
    let full = || io_error_with_path("f", IoFault {
        kind: IoKind::StorageFull,
        message: "no space".to_string(),
    });
    assert!(is_disk_full_error(&full()));
    assert!(!is_disk_full_error(&IaGetError::Interrupted));
    let mut transfer = Transfer::new(Some(3));
    let _ = transfer.measured(0);
    let moment = Moment::now();
    assert!(matches!(
        transfer.answered(&redirect(200, None), moment),
        TransferAction::Stream { reset: false }
    ));
    assert!(matches!(
        transfer.broken(full(), moment),
        TransferAction::Finish { outcome: Err(IaGetError::FileSystem { .. }), .. }
    ));
}

#[test]
fn connection_errors_are_retried_until_they_are_too_many() {
    let mut transfer = Transfer::new(None);
    let moment = Moment { now_nanos: 0, seed: 1 };
    let down = IaGetError::Network { detail: "refused".to_string(), source: None };
    for n in 1..=MAX_RETRIES {
        let _ = transfer.measured(0);
        match transfer.unanswered(&down, moment) {
            TransferAction::Wait { kind, detail, attempt, .. } => {
                assert_eq!(kind, "Connection error");
                assert_eq!(detail, "Network error: refused");
                assert_eq!(attempt, n);
            }
            other => panic!("{other:?}"),
        }
    }
    let _ = transfer.measured(0);
    assert!(matches!(
        transfer.unanswered(&down, moment),
        TransferAction::Finish { outcome: Err(IaGetError::Network { .. }), .. }
    ));
}

#[test]
fn transfers_need_a_url() {
    assert_eq!(transfer_url("https://archive.org/a b").unwrap().href, "https://archive.org/a%20b");
    let text = transfer_url("nowhere").unwrap_err().to_text();
    assert_eq!(text, "Network error: invalid URL \"nowhere\": relative URL without a base");
}

// ---------------------------------------------------------------------------
// Batches
// ---------------------------------------------------------------------------

/// A made-up disk.
#[derive(Default)]
struct Disk {
    files: BTreeMap<String, Vec<u8>>,
    mtimes: BTreeMap<String, u64>,
    dirs: BTreeSet<String>,
    links: BTreeSet<String>,
}

impl Disk {
    fn state(&self, path: &str) -> PathState {
        if self.links.contains(path) {
            PathState::Symlink
        } else if self.dirs.contains(path) {
            PathState::Directory
        } else if self.files.contains_key(path) {
            PathState::Regular
        } else {
            PathState::NotFound
        }
    }

    fn size(&self, path: &str) -> Result<u64, IaGetError> {
        match self.files.get(path) {
            Some(content) => Ok(content.len() as u64),
            None => Err(fault(path, "not found")),
        }
    }

    fn hash(&self, path: &str) -> Result<String, IaGetError> {
        match self.files.get(path) {
            Some(content) => Ok(md5_hex(content)),
            None => Err(fault(path, "not found")),
        }
    }

    fn parents(&self, path: &str, output_dir: &str) -> Result<(), IaGetError> {
        let dirs = directories_to_guard(path, output_dir);
        let links = dirs.iter().map(|dir| self.links.contains(dir)).collect();
        refuse_symlinks(&dirs, &links)
    }

    fn open(&mut self, path: &str, recreate: bool) -> Result<(), IaGetError> {
        if recreate {
            self.files.remove(path);
        }
        ensure_not_symlink(path, self.links.contains(path))?;
        if self.dirs.contains(path) {
            return Err(fault(path, "is a directory"));
        }
        self.files.entry(path.to_string()).or_default();
        Ok(())
    }

    fn install(&mut self, part: &str, path: &str) -> Result<(), IaGetError> {
        ensure_not_symlink(path, self.links.contains(path))?;
        let content = self.files.remove(part).unwrap();
        self.files.insert(path.to_string(), content);
        Ok(())
    }
}

fn fault(path: &str, message: &str) -> IaGetError {
    io_error_with_path(path, IoFault { kind: IoKind::Other, message: message.to_string() })
}

fn task(path: &str, md5: Option<String>, size: Option<u64>, mtime: Option<u64>) -> DownloadTask {
    DownloadTask {
        url: "https://archive.org/download/item1/file".to_string(),
        file_path: path.to_string(),
        expected_md5: md5,
        expected_size: size,
        expected_mtime: mtime,
    }
}

fn run_attempts(
    disk: &mut Disk,
    server: &mut Server,
    task: &DownloadTask,
    part: &str,
    output_dir: &str,
) -> Result<DownloadOutcome, IaGetError> {
    let mut attempts = Attempts::new(task.expected_size);
    let mut action = attempts.prepared(&disk.parents(part, output_dir));
    loop {
        action = match action {
            AttemptAction::Open { recreate } => attempts.opened(&disk.open(part, recreate)),
            AttemptAction::Download { .. } => {
                let mut content = disk.files.remove(part).unwrap();
                let outcome = run_download(server, &mut content, task.expected_size, None);
                disk.files.insert(part.to_string(), content);
                attempts.downloaded(&outcome)
            }
            AttemptAction::Measure => attempts.measured(disk.size(part).ok()),
            AttemptAction::Verify | AttemptAction::VerifyInPlace { .. } => {
                let outcome = verify_part(
                    &disk.size(part),
                    &disk.hash(part),
                    &task.expected_md5,
                    task.expected_size,
                )
                .map(|(outcome, _)| outcome);
                attempts.verified(&outcome)
            }
            AttemptAction::Finish(outcome) => return Ok(outcome),
            AttemptAction::Stop => return Err(IaGetError::Interrupted),
        };
    }
}

fn process_file(
    disk: &mut Disk,
    server: &mut Server,
    task: &DownloadTask,
    output_dir: &str,
) -> Result<FileOutcome, IaGetError> {
    let path = task.file_path.clone();
    let part = part_path(&path);
    let mut run = FileRun::new(task.expected_mtime);
    let mut action = run.parents_made(&disk.parents(&path, output_dir));
    loop {
        action = match action {
            FileAction::CheckExisting => {
                let status = check_existing_file(
                    &disk.state(&path),
                    &disk.size(&path),
                    &disk.hash(&path),
                    &task.expected_md5,
                    task.expected_size,
                );
                run.handle_existing_file(status)?
            }
            FileAction::Keep { mtime, .. } => {
                disk.files.remove(&part);
                if let Some(secs) = mtime {
                    disk.mtimes.insert(path.clone(), secs);
                }
                run.copy_kept()
            }
            FileAction::RemoveStale { .. } => {
                disk.files.remove(&path);
                run.stale_removed(&Ok(()))
            }
            FileAction::Download { remove_part } => {
                if remove_part {
                    disk.files.remove(&part);
                }
                let outcome = run_attempts(disk, server, task, &part, output_dir)?;
                run.attempts_over(outcome)
            }
            FileAction::Install { mtime } => {
                let installed = disk.install(&part, &path);
                if installed.is_ok() {
                    if let Some(secs) = mtime {
                        disk.mtimes.insert(path.clone(), secs);
                    }
                }
                run.file_installed(&installed)
            }
            FileAction::Finish { outcome, remove_part } => {
                if remove_part {
                    disk.files.remove(&part);
                }
                return Ok(outcome);
            }
        };
    }
}

fn run_batch(
    disk: &mut Disk,
    servers: &mut [Server],
    tasks: &[DownloadTask],
    stop_on_error: bool,
    running: bool,
) -> (Vec<Line>, Result<(), IaGetError>) {
    let mut batch = Batch::new(tasks.len(), 1, stop_on_error);
    loop {
        match batch.next(running) {
            BatchAction::Process { index, number } => {
                assert_eq!(number, index + 1);
                match process_file(disk, &mut servers[index], &tasks[index], "out") {
                    Ok(outcome) => batch.record(&tasks[index].file_path, outcome),
                    Err(e) => return (vec![], Err(e)),
                }
            }
            BatchAction::End { lines, result } => return (lines, result),
        }
    }
}

const OK_CONTENT: &[u8] = b"ok-content-123";

fn ok_task() -> DownloadTask {
    task("out/ok.bin", Some(md5_hex(OK_CONTENT)), Some(OK_CONTENT.len() as u64), None)
}

fn missing_and_ok() -> (Vec<Server>, Vec<DownloadTask>) {
    (
        vec![server(vec![], reply(404, b"")), server(vec![reply(200, OK_CONTENT)], reply(404, b""))],
        vec![task("out/missing.bin", None, Some(5), None), ok_task()],
    )
}

#[test]
fn mod_batch_continues_after_file_failure() {
    let mut disk = Disk::default();
    let (mut servers, tasks) = missing_and_ok();
    let (lines, result) = run_batch(&mut disk, &mut servers, &tasks, false, true);
    match result.unwrap_err() {
        IaGetError::BatchFailed { count, total, details } => {
            assert_eq!((count, total), (1, 2));
            assert_eq!(
                details,
                "out/missing.bin: Network error: Server responded with HTTP 404 Not Found Not Found"
            );
        }
        other => panic!("expected BatchFailed, got {:?}", other),
    }
    assert_eq!(disk.files["out/ok.bin"], OK_CONTENT);
    assert!(!disk.files.contains_key("out/missing.bin"));
    let shown: Vec<String> = lines.iter().map(|line| line.plain()).collect();
    assert_eq!(shown, vec![
        " ",
        "✘ Failed 1 file(s) could not be downloaded:",
        "  out/missing.bin Network error: Server responded with HTTP 404 Not Found Not Found",
        "",
        "Σ downloaded 2 files: 1 ok, 1 failed",
    ]);
}

#[test]
fn mod_stop_on_error_aborts_batch() {
    let mut disk = Disk::default();
    let (mut servers, tasks) = missing_and_ok();
    let (_, result) = run_batch(&mut disk, &mut servers, &tasks, true, true);
    let err = result.unwrap_err();
    assert!(
        matches!(err, IaGetError::BatchFailed { count: 1, .. }),
        "expected BatchFailed with one file, got {:?}",
        err
    );
    assert_eq!(servers[0].ranges.len(), 1);
    assert_eq!(servers[1].ranges.len(), 0, "second file must never be requested");
    assert!(!disk.files.contains_key("out/ok.bin"));
}

#[test]
fn mod_hash_mismatch_triggers_redownload() {
    let correct = b"correct-content-001";
    let corrupt = b"corrupt!-content-01";
    let mut disk = Disk::default();
    let mut servers = vec![server(vec![reply(200, corrupt), reply(200, correct)], reply(200, b""))];
    let tasks =
        vec![task("out/file.bin", Some(md5_hex(correct)), Some(correct.len() as u64), None)];
    let (_, result) = run_batch(&mut disk, &mut servers, &tasks, false, true);
    result.expect("batch should succeed after re-download");
    assert_eq!(servers[0].ranges.len(), 2, "mismatch must trigger exactly one re-download");
    assert_eq!(disk.files["out/file.bin"], correct);
}

#[test]
fn mod_md5_case_is_insensitive_on_download() {
    let content = b"case-insensitive-md5";
    let mut disk = Disk::default();
    let mut servers = vec![server(vec![reply(200, content)], reply(200, b""))];
    let md5 = md5_hex(content).to_ascii_uppercase();
    let tasks = vec![task("out/file.bin", Some(md5), Some(content.len() as u64), None)];
    let (_, result) = run_batch(&mut disk, &mut servers, &tasks, false, true);
    result.expect("an uppercase MD5 must verify a correct file");
    assert_eq!(servers[0].ranges.len(), 1, "a correct file must not be re-downloaded");
    assert_eq!(disk.files["out/file.bin"], content);
}

#[test]
fn mod_existing_file_md5_case_is_insensitive() {
    let content = b"already-on-disk-md5";
    let mut disk = Disk::default();
    disk.files.insert("out/file.bin".to_string(), content.to_vec());
    let mut servers = vec![server(vec![], reply(200, b""))];
    let md5 = md5_hex(content).to_ascii_uppercase();
    let tasks = vec![task("out/file.bin", Some(md5), Some(content.len() as u64), None)];
    let (_, result) = run_batch(&mut disk, &mut servers, &tasks, false, true);
    result.expect("an uppercase MD5 must verify an existing file in place");
    assert_eq!(servers[0].ranges.len(), 0, "a verified existing file must not be re-downloaded");
    assert_eq!(disk.files["out/file.bin"], content);
}

fn mtime_after(reply: Reply, content: &[u8], mtime: Option<u64>) -> Option<u64> {
    let mut disk = Disk::default();
    let mut servers = vec![server(vec![reply], self::reply(200, b""))];
    let tasks = vec![task(
        "out/file.bin",
        Some(md5_hex(content)),
        Some(content.len() as u64),
        mtime,
    )];
    let (_, result) = run_batch(&mut disk, &mut servers, &tasks, false, true);
    result.expect("batch should succeed");
    disk.mtimes.get("out/file.bin").copied()
}

#[test]
fn mod_downloaded_file_gets_xml_mtime_when_server_sends_none() {
    let content = b"xml-mtime-content";
    assert_eq!(
        mtime_after(reply(200, content), content, Some(1_545_586_142)),
        Some(1_545_586_142),
        "file mtime must be set from _files.xml when the server sent no Last-Modified"
    );
}

#[test]
fn mod_server_last_modified_wins_over_xml_mtime() {
    let content = b"server-mtime-content";
    let answer = Reply { last_modified: Some(DATE), ..reply(200, content) };
    assert_eq!(
        mtime_after(answer, content, Some(1_545_586_142)),
        Some(DATE_SECS),
        "server Last-Modified must take precedence over the _files.xml mtime"
    );
}

#[test]
fn mod_file_mtime_untouched_without_mtime_sources() {
    let content = b"no-mtime-content";
    assert_eq!(mtime_after(reply(200, content), content, None), None);
}

#[test]
fn mod_verified_existing_file_gets_xml_mtime_without_download() {
    let content = b"already-verified-content";
    let mut disk = Disk::default();
    disk.files.insert("out/file.bin".to_string(), content.to_vec());
    disk.files.insert("out/file.bin.part".to_string(), b"left over".to_vec());
    let mut servers = vec![server(vec![], reply(200, b""))];
    let tasks = vec![task("out/file.bin", None, Some(content.len() as u64), Some(1_545_586_142))];
    let (_, result) = run_batch(&mut disk, &mut servers, &tasks, false, true);
    result.expect("batch should succeed");
    assert_eq!(servers[0].ranges.len(), 0, "verified file must not be re-downloaded");
    assert_eq!(
        disk.mtimes.get("out/file.bin"),
        Some(&1_545_586_142),
        "already-verified file must still get the _files.xml mtime"
    );
    assert_eq!(disk.files["out/file.bin"], content);
    assert!(!disk.files.contains_key("out/file.bin.part"));
}

#[test]
fn mod_existing_file_with_wrong_size_and_no_md5_is_redownloaded() {
    let content = b"fresh-content-001";
    let mut disk = Disk::default();
    disk.files.insert("out/file.bin".to_string(), b"stale".to_vec());
    let mut servers = vec![server(vec![reply(200, content)], reply(200, b""))];
    let tasks = vec![task("out/file.bin", None, Some(content.len() as u64), None)];
    let (_, result) = run_batch(&mut disk, &mut servers, &tasks, false, true);
    result.expect("batch should succeed after re-download");
    assert_eq!(
        servers[0].ranges.len(),
        1,
        "size mismatch without MD5 must trigger a re-download"
    );
    assert_eq!(disk.files["out/file.bin"], content);
}

#[test]
fn mod_unremovable_stale_file_fails_only_that_file() {
    let mut disk = Disk::default();
    disk.dirs.insert("out/blocked.bin".to_string());
    let mut servers = vec![
        server(vec![], reply(404, b"")),
        server(vec![reply(200, OK_CONTENT)], reply(404, b"")),
    ];
    let zeros = Some("00000000000000000000000000000000".to_string());
    let tasks = vec![task("out/blocked.bin", zeros, None, None), ok_task()];
    let (_, result) = run_batch(&mut disk, &mut servers, &tasks, false, true);
    match result.unwrap_err() {
        IaGetError::BatchFailed { count, total, details } => {
            assert_eq!((count, total), (1, 2));
            assert!(details.contains("blocked.bin"), "{details}");
        }
        other => panic!("expected BatchFailed with one file, got {:?}", other),
    }
    assert_eq!(disk.files["out/ok.bin"], OK_CONTENT);
    assert!(disk.dirs.contains("out/blocked.bin"), "unremovable stale file must stay in place");
}

#[test]
fn mod_uncreatable_part_file_fails_only_that_file() {
    let mut disk = Disk::default();
    disk.dirs.insert("out/blocked.bin.part".to_string());
    let mut servers = vec![
        server(vec![], reply(404, b"")),
        server(vec![reply(200, OK_CONTENT)], reply(404, b"")),
    ];
    let tasks = vec![task("out/blocked.bin", None, None, None), ok_task()];
    let (_, result) = run_batch(&mut disk, &mut servers, &tasks, false, true);
    match result.unwrap_err() {
        IaGetError::BatchFailed { count, total, details } => {
            assert_eq!((count, total), (1, 2));
            assert!(details.contains("could not prepare .part file"), "{details}");
        }
        other => panic!("expected BatchFailed with one file, got {:?}", other),
    }
    assert_eq!(disk.files["out/ok.bin"], OK_CONTENT);
}

#[test]
fn mod_complete_part_416_is_verified_in_place() {
    let full = b"complete-part-content";
    let mut disk = Disk::default();
    disk.files.insert("out/file.bin.part".to_string(), full.to_vec());
    let mut server = server(vec![reply(416, b"")], reply(200, full));
    let task = task("out/file.bin", Some(md5_hex(full)), Some(full.len() as u64), None);
    let outcome = run_attempts(&mut disk, &mut server, &task, "out/file.bin.part", "out")
        .expect("a complete .part must verify in place");
    assert!(matches!(outcome, DownloadOutcome::Verified { .. }));
    assert_eq!(server.ranges, vec![Some(full.len() as u64)]);
}

#[test]
fn mod_complete_part_416_with_wrong_hash_is_redownloaded() {
    let stale = b"stale-content-0001";
    let fresh = b"fresh-content-0001";
    let mut disk = Disk::default();
    disk.files.insert("out/file.bin.part".to_string(), stale.to_vec());
    let mut server = server(vec![reply(416, b"")], reply(200, fresh));
    let task = task("out/file.bin", Some(md5_hex(fresh)), Some(fresh.len() as u64), None);
    let outcome = run_attempts(&mut disk, &mut server, &task, "out/file.bin.part", "out")
        .expect("the re-download must succeed");
    assert!(matches!(outcome, DownloadOutcome::Verified { .. }));
    assert_eq!(server.ranges, vec![Some(stale.len() as u64), None]);
    assert_eq!(disk.files["out/file.bin.part"], fresh);
}

#[test]
fn complete_part_416_without_md5_is_verified_in_place() {
    let full = b"no-md5-complete-part";
    let mut disk = Disk::default();
    disk.files.insert("out/file.bin.part".to_string(), full.to_vec());
    let mut server = server(vec![reply(416, b"")], reply(200, full));
    let task = task("out/file.bin", None, Some(full.len() as u64), None);
    let outcome = run_attempts(&mut disk, &mut server, &task, "out/file.bin.part", "out")
        .expect("a complete known-size .part must verify in place");
    assert!(matches!(outcome, DownloadOutcome::Verified { server_mtime: None }));
    assert_eq!(server.ranges, vec![Some(full.len() as u64)]);
}

#[test]
fn planted_symlink_parent_is_refused_before_existing_file_checks() {
    let mut disk = Disk::default();
    disk.links.insert("out/blocked".to_string());
    disk.files.insert("out/blocked/ok.bin".to_string(), b"external-precious".to_vec());
    let mut servers = vec![server(vec![], reply(200, b"x"))];
    let md5 = Some(md5_hex(b"totally-different"));
    let tasks = vec![task("out/blocked/ok.bin", md5, Some(99), None)];
    let (_, result) = run_batch(&mut disk, &mut servers, &tasks, false, true);
    match result.unwrap_err() {
        IaGetError::BatchFailed { details, .. } => {
            assert!(details.contains("could not prepare parent directories"), "{details}");
        }
        other => panic!("expected BatchFailed, got {other:?}"),
    }
    assert_eq!(
        disk.files["out/blocked/ok.bin"],
        b"external-precious",
        "the file behind the planted link must be untouched"
    );
    assert_eq!(servers[0].ranges.len(), 0);
}

#[test]
fn mod_interrupt_between_files_is_an_error() {
    let mut disk = Disk::default();
    let (mut servers, tasks) = missing_and_ok();
    let (lines, result) = run_batch(&mut disk, &mut servers, &tasks, false, false);
    let err = result.unwrap_err();
    assert!(
        matches!(err, IaGetError::Interrupted),
        "an interrupted batch must fail, got {err:?}"
    );
    assert_eq!(lines[0].plain(), "");
    assert!(lines[1].plain().contains("Download interrupted"));
}

#[test]
fn mod_install_refuses_symlinked_final_file() {
    let mut disk = Disk::default();
    disk.links.insert("out/file.bin".to_string());
    disk.files.insert("out/file.bin.part".to_string(), b"fresh content".to_vec());
    let err = disk.install("out/file.bin.part", "out/file.bin").unwrap_err();
    assert!(err.to_text().contains("symlink"), "got: {}", err.to_text());
    let mut run = FileRun { stage: FileStage::Installing, expected_mtime: None };
    assert!(matches!(
        run.file_installed(&Err(err)),
        FileAction::Finish { outcome: FileOutcome::Failed(_), remove_part: false }
    ));
    assert!(
        disk.files.contains_key("out/file.bin.part"),
        "the verified .part must be kept for the next run"
    );
}

#[test]
fn attempts_end_after_three_wrong_files() {
    let mut disk = Disk::default();
    let mut servers = vec![server(vec![], reply(200, b"wrong"))];
    let tasks = vec![task("out/file.bin", Some(md5_hex(b"right")), Some(5), None)];
    let (_, result) = run_batch(&mut disk, &mut servers, &tasks, false, true);
    assert_eq!(servers[0].ranges.len(), 3);
    match result.unwrap_err() {
        IaGetError::BatchFailed { details, .. } => assert_eq!(
            details,
            "out/file.bin: file failed verification after 3 attempt(s)"
        ),
        other => panic!("{other:?}"),
    }
    assert!(!disk.files.contains_key("out/file.bin"));
}

#[test]
fn rejected_offsets_throw_the_partial_file_away() {
    let mut disk = Disk::default();
    disk.files.insert("out/file.bin.part".to_string(), b"not a prefix at all".to_vec());
    // Every answer is a 416: the part is remade, and a 416 to a plain request
    // is fatal
    let mut servers = vec![server(vec![], reply(416, b""))];
    let tasks = vec![task("out/file.bin", None, Some(5), None)];
    let (_, result) = run_batch(&mut disk, &mut servers, &tasks, false, true);
    assert!(result.is_err());
    assert_eq!(servers[0].ranges, vec![Some(19), None]);
    assert_eq!(disk.files["out/file.bin.part"], b"");
}

#[test]
fn parents_are_guarded_below_the_output_directory() {
    assert_eq!(
        directories_to_guard("out/a/b/f.bin", "out"),
        vec!["out/a/b".to_string(), "out/a".to_string()]
    );
    assert_eq!(directories_to_guard("a/f.bin", ""), vec!["a".to_string()]);
    assert!(directories_to_guard("f.bin", "").is_empty());
    assert!(directories_to_guard("out/f.bin", "out").is_empty());
    assert_eq!(parent_directory("out/a/f").as_deref(), Some("out/a"));
    assert_eq!(parent_directory("/f"), None);
    assert_eq!(parent_directory("f"), None);
    assert_eq!(parent_directory("../f"), None);
    assert_eq!(parent_directory("./f"), None);
    assert_eq!(parent_directory("/a/f").as_deref(), Some("/a"));
}

#[test]
fn ensure_parent_directories_refuses_planted_symlink_component() {
    let dirs = directories_to_guard("out/season1/deep/video.mp4.part", "out");
    let err = refuse_symlinks(&dirs, &vec![false, true]).unwrap_err();
    assert_eq!(
        err.to_text(),
        "File operation failed: out/season1 is a symlink; refusing to write through it"
    );
    assert!(refuse_symlinks(&dirs, &vec![false, false]).is_ok());
}

#[test]
fn ensure_parent_directories_trusts_a_symlinked_output_dir() {
    let mut disk = Disk::default();
    disk.links.insert("out".to_string());
    assert!(disk.parents("out/season1/video.mp4.part", "out").is_ok());
}

#[test]
fn mod_batch_failed_total_counts_only_batch_files() {
    // The file before the batch takes the first number, and is not counted
    let mut batch = Batch::new(2, 2, false);
    for (index, path) in ["out/missing.bin", "out/ok.bin"].iter().enumerate() {
        match batch.next(true) {
            BatchAction::Process { index: at, number } => {
                assert_eq!((at, number), (index, index + 2));
            }
            BatchAction::End { .. } => panic!("the batch ended before its files"),
        }
        let outcome = if index == 0 {
            FileOutcome::Failed("HTTP 404".to_string())
        } else {
            FileOutcome::Succeeded
        };
        batch.record(path, outcome);
    }
    match batch.next(true) {
        BatchAction::End { result: Err(IaGetError::BatchFailed { count, total, .. }), .. } => {
            assert_eq!((count, total), (1, 2));
        }
        _ => panic!("expected BatchFailed"),
    }
}

#[test]
fn mod_symlinked_part_file_is_refused() {
    let err = ensure_not_symlink("out/file.bin.part", true).unwrap_err();
    assert!(err.to_text().contains("symlink"), "got: {}", err.to_text());
    assert!(ensure_not_symlink("out/file.bin.part", false).is_ok());
}

#[test]
fn ensure_parent_directories_creates_missing_components() {
    let part = "out/season1/deep/video.mp4.part";
    assert_eq!(parent_directory(part).as_deref(), Some("out/season1/deep"));
    let disk = Disk::default();
    assert!(disk.parents(part, "out").is_ok(), "missing components must be created");
}

#[test]
fn ensure_parent_directories_accepts_real_existing_components() {
    let dirs = directories_to_guard("out/season1/video.mp4.part", "out");
    assert_eq!(dirs, vec!["out/season1".to_string()]);
    assert!(refuse_symlinks(&dirs, &vec![false]).is_ok());
}

#[test]
fn files_succeed_by_keeping_or_installing() {
    let mut run = FileRun::new(Some(9));
    assert!(matches!(run.parents_made(&Ok(())), FileAction::CheckExisting));
    let status = check_existing_file(&PathState::Regular, &Ok(5), &Ok(String::new()), &None, Some(5));
    match run.handle_existing_file(status).unwrap() {
        FileAction::Keep { mtime, .. } => assert_eq!(mtime, Some(9)),
        other => panic!("{other:?}"),
    }
    assert_eq!(run.stage, FileStage::Keeping);
    assert!(matches!(
        run.copy_kept(),
        FileAction::Finish { outcome: FileOutcome::Succeeded, remove_part: false }
    ));
    assert_eq!(run.stage, FileStage::Finished);

    let mut run = FileRun { stage: FileStage::Downloading, expected_mtime: Some(9) };
    let verified = DownloadOutcome::Verified { server_mtime: Some(7) };
    assert!(matches!(run.attempts_over(verified), FileAction::Install { mtime: Some(7) }));
    assert!(matches!(
        run.file_installed(&Ok(())),
        FileAction::Finish { outcome: FileOutcome::Succeeded, remove_part: false }
    ));

    // A request to stop while the copy is looked at ends the file
    let mut run = FileRun { stage: FileStage::Checking, expected_mtime: None };
    assert!(matches!(
        run.handle_existing_file(Err(IaGetError::Interrupted)),
        Err(IaGetError::Interrupted)
    ));
    assert_eq!(run.stage, FileStage::Finished);
}

#[test]
fn a_transfer_of_many_pieces_leaves_the_whole_file() {
    let full = b"01234567890123456789";
    // A break, an error page, a 206 that does not continue, and what is left
    let stray = Reply { content_range: Some("bytes 3-19/20"), ..reply(206, &full[3..]) };
    let broken = Reply { breaks: true, ..reply(200, &full[..8]) };
    let script = vec![broken, reply(503, b"busy"), stray, reply(200, &full[..4]), ranged(full)];
    let mut server = server(script, reply(500, b""));
    let mut part = full[..2].to_vec();
    run_download(&mut server, &mut part, Some(20), None).expect("download should succeed");
    assert_eq!(part, full);
    assert_eq!(server.ranges, vec![Some(2), Some(8), Some(8), None, Some(4)]);
}
