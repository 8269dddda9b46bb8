//! Transferring one file: what is asked of the server, and what becomes of
//! its answer and its body.

use crate::clock;
use crate::cookie;
use crate::cookie::{cookie_header_for, CookieSource};
use crate::downloader::mtime;
use crate::downloader::mtime::parse_last_modified;
use crate::downloader::retry;
use crate::downloader::retry::{parse_retry_after_at, RetryStep, RetryTracker, MAX_RETRIES};
use crate::error::{IaGetError, IoKind, UrlFault};
use crate::header;
use crate::header::{header_value, read_header};
use crate::link;
use crate::link::Link;
use crate::status;
use crate::text;
use vstd::prelude::*;
use vstd::utf8;

verus! {

/// What a server answered, before the body.
#[derive(Debug)]
pub struct ResponseHead {
    pub status: u16,
    pub location: Option<Vec<u8>>,
    pub retry_after: Option<Vec<u8>>,
    pub content_range: Option<Vec<u8>>,
    pub last_modified: Option<Vec<u8>>,
    pub content_length: Option<u64>,
}

/// When something happens: the time in nanoseconds since the Unix epoch,
/// below zero before it, and a seed for jitter.
#[derive(Clone, Copy, Debug, PartialEq, Eq, Structural)]
pub struct Moment {
    pub now_nanos: i128,
    pub seed: u64,
}

/// The moment of a time in nanoseconds, with the seed that it gives.
pub open spec fn moment_of(now_nanos: i128) -> Moment {
    Moment { now_nanos, seed: retry::seed_of(now_nanos as int) }
}

impl Moment {
    /// The moment of a time in nanoseconds, with the seed that it gives.
    pub fn at(now_nanos: i128) -> (r: Moment)
        ensures
            r == moment_of(now_nanos),
    {
        Moment { now_nanos, seed: retry::seed_at(now_nanos) }
    }

    /// The present: the moment of a time that the clock can show.
    pub fn now() -> (r: Moment)
        ensures
            clock::is_reading(r.now_nanos as int),
            r == moment_of(r.now_nanos),
    {
        Moment::at(clock::now_nanos())
    }
}

// ---------------------------------------------------------------------------
// Reading an answer
// ---------------------------------------------------------------------------

/// Whether a status is worth retrying.
pub open spec fn is_retryable(code: u16) -> bool {
    code == 408 || code == 425 || code == 429 || code == 500 || code == 502 || code == 503 || code
        == 504
}

/// Whether a status is worth retrying: throttling and transient server
/// problems.
pub fn is_retryable_status(code: u16) -> (r: bool)
    ensures
        r == is_retryable(code),
{
    code == 408 || code == 425 || code == 429 || code == 500 || code == 502 || code == 503 || code
        == 504
}

/// The number that a text reads as, where it fits 64 bits.
pub open spec fn small_number(s: Seq<char>) -> Option<nat> {
    match text::unsigned(s) {
        Some(n) => if n <= u64::MAX {
            Some(n)
        } else {
            None
        },
        None => None,
    }
}

/// The offset that a `Content-Range` value starts at: `bytes start-end/total`
/// with the end not before the start, and below the total unless that is
/// unknown (`*`). A value that is malformed in any part has none.
pub open spec fn range_start(value: Seq<char>) -> Option<nat> {
    if !"bytes "@.is_prefix_of(value) {
        None
    } else {
        let rest = value.skip("bytes "@.len() as int);
        let slash = text::position(rest, '/');
        let range = rest.take(slash);
        let dash = text::position(range, '-');
        if slash >= rest.len() || dash >= range.len() {
            None
        } else {
            let total = rest.skip(slash + 1);
            match (small_number(range.take(dash)), small_number(range.skip(dash + 1))) {
                (Some(start), Some(end)) => if end < start {
                    None
                } else if total == "*"@ || (small_number(total) matches Some(n) && n > end) {
                    Some(start)
                } else {
                    None
                },
                _ => None,
            }
        }
    }
}

/// Whether a `Content-Range` header starts at an offset; nothing where it is
/// absent or malformed.
pub open spec fn range_continues(raw: Option<Seq<u8>>, expected_start: u64) -> Option<bool> {
    match header::header_reads(raw) {
        Some(value) => match range_start(value) {
            Some(start) => Some(start == expected_start),
            None => None,
        },
        None => None,
    }
}

fn read_range_start(value: &Vec<char>) -> (r: Option<u64>)
    ensures
        match r {
            Some(n) => range_start(value@) == Some(n as nat),
            None => range_start(value@) is None,
        },
{
    if !text::starts_with(value, "bytes ") {
        return None;
    }
    let n: usize = text::chars_of("bytes ").len();
    let rest = text::chars_between(value, n, value.len());
    assert(value@.subrange(n as int, value@.len() as int) =~= value@.skip(n as int));
    let slash: usize = text::find(&rest, '/');
    if slash == rest.len() {
        return None;
    }
    let range = text::chars_between(&rest, 0, slash);
    assert(rest@.subrange(0, slash as int) =~= rest@.take(slash as int));
    let total = text::chars_between(&rest, slash + 1, rest.len());
    assert(rest@.subrange(slash + 1, rest@.len() as int) =~= rest@.skip(slash + 1));
    let dash: usize = text::find(&range, '-');
    if dash == range.len() {
        return None;
    }
    let first = text::chars_between(&range, 0, dash);
    assert(range@.subrange(0, dash as int) =~= range@.take(dash as int));
    let last = text::chars_between(&range, dash + 1, range.len());
    assert(range@.subrange(dash + 1, range@.len() as int) =~= range@.skip(dash + 1));
    let start: u64 = match text::parse_u64(&first) {
        Some(start) => start,
        None => {
            return None;
        },
    };
    let end: u64 = match text::parse_u64(&last) {
        Some(end) => end,
        None => {
            return None;
        },
    };
    if end < start {
        return None;
    }
    if text::is_text(&total, "*") {
        return Some(start);
    }
    match text::parse_u64(&total) {
        Some(total) => if total > end {
            Some(start)
        } else {
            None
        },
        None => None,
    }
}

/// Whether a `Content-Range` header starts at the offset that was asked for;
/// nothing where it is absent or malformed in any part.
pub fn partial_content_offset(raw: &Option<Vec<u8>>, expected_start: u64) -> (r: Option<bool>)
    ensures
        r == range_continues(header::raw_view(*raw), expected_start),
{
    match read_header(raw) {
        Some(value) => match read_range_start(&text::chars_of(&value)) {
            Some(start) => Some(start == expected_start),
            None => None,
        },
        None => None,
    }
}

/// Whether the local file may be continued with the body of an answer: only
/// with that of a 206 that starts where the file ends.
pub open spec fn is_continuation(head: ResponseHead, local_size: u64) -> bool {
    head.status == 206 && range_continues(header::raw_view(head.content_range), local_size) == Some(
        true,
    )
}

/// Whether the local file may be continued with the body of an answer.
pub fn prefix_trusted(head: &ResponseHead, local_size: u64) -> (r: bool)
    ensures
        r == is_continuation(*head, local_size),
{
    head.status == 206 && match partial_content_offset(&head.content_range, local_size) {
        Some(continues) => continues,
        None => false,
    }
}

/// What a progress bar counts to: the local bytes and those announced, else
/// the expected size, else the local bytes.
pub open spec fn progress_end(
    content_length: Option<u64>,
    base_size: u64,
    expected_size: Option<u64>,
) -> nat {
    match content_length {
        Some(rest) => base_size as nat + rest as nat,
        None => match expected_size {
            Some(size) => size as nat,
            None => base_size as nat,
        },
    }
}

/// What a progress bar counts to.
pub fn progress_total(
    content_length: Option<u64>,
    base_size: u64,
    expected_size: Option<u64>,
) -> (r: u64)
    requires
        content_length is Some ==> base_size + content_length->0 <= u64::MAX,
    ensures
        r == progress_end(content_length, base_size, expected_size),
{
    match content_length {
        Some(rest) => base_size + rest,
        None => match expected_size {
            Some(size) => size,
            None => base_size,
        },
    }
}

/// What a body that was read to its end amounts to.
#[derive(Clone, Copy, Debug, PartialEq, Eq, Structural)]
pub enum StreamedBody {
    /// The file is complete.
    Complete,
    /// Nothing came, though something was expected.
    Empty,
    /// It ended before the expected size.
    Incomplete { received: u64, expected: u64 },
}

/// What a body that was read to its end amounts to.
pub open spec fn assessed(downloaded: u64, base_size: u64, expected_size: Option<u64>) -> StreamedBody {
    match expected_size {
        Some(expected) => if downloaded == 0 && base_size == 0 && expected > 0 {
            StreamedBody::Empty
        } else if base_size + downloaded < expected {
            StreamedBody::Incomplete { received: (base_size + downloaded) as u64, expected }
        } else {
            StreamedBody::Complete
        },
        None => StreamedBody::Complete,
    }
}

/// What a body that was read to its end amounts to. A body of no bytes is a
/// fault only where some are expected: a file of unknown size may be empty.
pub fn assess_streamed_body(downloaded: u64, base_size: u64, expected_size: Option<u64>) -> (r:
    StreamedBody)
    requires
        base_size + downloaded <= u64::MAX,
    ensures
        r == assessed(downloaded, base_size, expected_size),
{
    match expected_size {
        Some(expected) => if downloaded == 0 && base_size == 0 && expected > 0 {
            StreamedBody::Empty
        } else if base_size + downloaded < expected {
            StreamedBody::Incomplete { received: base_size + downloaded, expected }
        } else {
            StreamedBody::Complete
        },
        None => StreamedBody::Complete,
    }
}

/// Whether an error is a full disk, which retrying cannot fix.
pub open spec fn is_disk_full(e: IaGetError) -> bool {
    e matches IaGetError::FileSystem { detail, source } && (source matches Some(fault) && fault.kind
        == IoKind::StorageFull)
}

/// Whether an error is a full disk.
pub fn is_disk_full_error(e: &IaGetError) -> (r: bool)
    ensures
        r == is_disk_full(*e),
{
    match e {
        IaGetError::FileSystem { source: Some(fault), .. } => fault.kind == IoKind::StorageFull,
        _ => false,
    }
}

// ---------------------------------------------------------------------------
// Redirects
// ---------------------------------------------------------------------------

/// How many redirects a request may follow.
pub const MAX_REDIRECTS: u32 = 10;

/// A request on its way through redirects: where it goes next, how many
/// redirects it followed, and the `Range` header that goes with it.
#[derive(Debug)]
pub struct Redirects {
    pub url: Link,
    pub count: u32,
    pub range: Option<String>,
}

/// A request on its way through redirects, seen from contracts.
pub struct RequestView {
    pub url: (Seq<char>, Seq<char>, Option<Seq<char>>, Seq<char>),
    pub count: nat,
    pub range: Option<Seq<char>>,
}

impl View for Redirects {
    type V = RequestView;

    open spec fn view(&self) -> RequestView {
        RequestView {
            url: self.url@,
            count: self.count as nat,
            range: text::maybe(self.range),
        }
    }
}

/// What follows an answer to a request.
#[derive(Debug)]
pub enum RedirectStep {
    /// It is the answer.
    Answer,
    /// It sends the request on, to where it now goes.
    Follow,
    /// It cannot be followed.
    Fail(IaGetError),
}

/// The statuses that send a request on.
pub open spec fn is_redirect(code: u16) -> bool {
    code == 301 || code == 302 || code == 303 || code == 307 || code == 308
}

/// What follows an answer to a request, seen from contracts.
pub enum RedirectMove {
    Answer,
    Follow,
    Fail { detail: Seq<char> },
}

impl RedirectStep {
    /// What the step is.
    pub open spec fn is(self, m: RedirectMove) -> bool {
        match self {
            RedirectStep::Answer => m is Answer,
            RedirectStep::Follow => m is Follow,
            RedirectStep::Fail(e) => m matches RedirectMove::Fail { detail } && e.is_network(
                detail,
            ),
        }
    }
}

/// What an answer makes of a request, given what its location resolved to.
/// A request that is sent on keeps its range; the answer that ends it leaves
/// it as it is.
pub open spec fn redirected(
    request: RequestView,
    code: u16,
    location: Option<Seq<char>>,
    resolved: Result<(Seq<char>, Seq<char>, Option<Seq<char>>, Seq<char>), Seq<char>>,
) -> (RequestView, RedirectMove) {
    if !is_redirect(code) {
        (request, RedirectMove::Answer)
    } else if request.count >= MAX_REDIRECTS {
        (request, RedirectMove::Fail { detail: "redirect limit exceeded (10 redirects)"@ })
    } else if location is None {
        (
            request,
            RedirectMove::Fail {
                detail: "HTTP "@ + status::status_line(code)
                    + " without a usable Location header"@,
            },
        )
    } else {
        match resolved {
            Err(message) => (
                request,
                RedirectMove::Fail {
                    detail: "invalid redirect target "@ + text::quoted(location->0) + ": "@
                        + message,
                },
            ),
            Ok(url) => (
                RequestView { url, count: request.count + 1, ..request },
                RedirectMove::Follow,
            ),
        }
    }
}

/// An answer, as far as redirects depend on it: its status, and where it
/// sends the request, where that reads as text.
pub struct Reply {
    pub code: u16,
    pub location: Option<Seq<char>>,
}

/// An answer, as far as redirects depend on it.
pub open spec fn reply_of(head: ResponseHead) -> Reply {
    Reply { code: head.status, location: header::header_reads(header::raw_view(head.location)) }
}

/// What an answer makes of a request: its location is resolved against where
/// the request went.
pub open spec fn replied(request: RequestView, reply: Reply) -> (RequestView, RedirectMove) {
    redirected(
        request,
        reply.code,
        reply.location,
        link::joined_url(
            request.url.0,
            match reply.location {
                Some(target) => target,
                None => Seq::empty(),
            },
        ),
    )
}

/// The requests that are sent, in order, where these answers come, one to
/// each.
pub open spec fn chain(request: RequestView, replies: Seq<Reply>) -> Seq<RequestView>
    decreases replies.len(),
{
    let rest = if replies.len() == 0 {
        Seq::empty()
    } else {
        let (next, what) = replied(request, replies.first());
        if what is Follow {
            chain(next, replies.skip(1))
        } else {
            Seq::empty()
        }
    };
    seq![request] + rest
}

/// The answer that ends a chain of requests, and what it leads to; none
/// where every answer sent the request on.
pub open spec fn chain_end(request: RequestView, replies: Seq<Reply>) -> Option<
    (Reply, RedirectMove),
>
    decreases replies.len(),
{
    if replies.len() == 0 {
        None
    } else {
        let (next, what) = replied(request, replies.first());
        if what is Follow {
            chain_end(next, replies.skip(1))
        } else {
            Some((replies.first(), what))
        }
    }
}

proof fn lemma_chain(request: RequestView, replies: Seq<Reply>)
    requires
        request.count <= MAX_REDIRECTS,
    ensures
        1 <= chain(request, replies).len() <= replies.len() + 1,
        chain(request, replies).len() + request.count <= MAX_REDIRECTS + 1,
        chain(request, replies)[0] == request,
        forall|i: int|
            0 <= i < chain(request, replies).len() ==> (#[trigger] chain(request, replies)[i]).range
                == request.range && chain(request, replies)[i].count == request.count + i,
        forall|i: int|
            #![trigger replies[i]]
            0 <= i < chain(request, replies).len() - 1 ==> replied(
                chain(request, replies)[i],
                replies[i],
            ) == (chain(request, replies)[i + 1], RedirectMove::Follow),
        match chain_end(request, replies) {
            None => chain(request, replies).len() == replies.len() + 1,
            Some((reply, what)) => {
                let last = chain(request, replies).len() - 1;
                last < replies.len() && reply == replies[last] && what !is Follow && what
                    == replied(chain(request, replies)[last], reply).1
            },
        },
    decreases replies.len(),
{
    let all = chain(request, replies);
    if replies.len() > 0 {
        let (next, what) = replied(request, replies.first());
        if what is Follow {
            let rest = replies.skip(1);
            lemma_chain(next, rest);
            assert(all == seq![request] + chain(next, rest));
            assert forall|i: int| 0 <= i < all.len() implies (#[trigger] all[i]).range
                == request.range && all[i].count == request.count + i by {
                if i > 0 {
                    assert(all[i] == chain(next, rest)[i - 1]);
                }
            }
            assert forall|i: int|
                #![trigger replies[i]]
                0 <= i < all.len() - 1 implies replied(all[i], replies[i]) == (
                all[i + 1],
                RedirectMove::Follow,
            ) by {
                assert(all[i + 1] == chain(next, rest)[i]);
                if i > 0 {
                    assert(all[i] == chain(next, rest)[i - 1]);
                    assert(replies[i] == rest[i - 1]);
                }
            }
            let last = chain(next, rest).len() - 1;
            assert(all[last + 1] == chain(next, rest)[last]);
        }
    }
}

/// Whatever is answered, at most eleven requests are sent, all with the
/// range that was given, each to where the answer before sent it. The chain
/// ends in an answer only where that is no redirect; an eleventh redirect,
/// and one that does not say where to, ends it with a failure.
pub proof fn redirects_end(request: RequestView, replies: Seq<Reply>)
    requires
        request.count == 0,
    ensures
        1 <= chain(request, replies).len() <= 1 + MAX_REDIRECTS,
        chain(request, replies)[0] == request,
        forall|i: int|
            0 <= i < chain(request, replies).len() ==> (#[trigger] chain(request, replies)[i]).range
                == request.range,
        forall|i: int|
            #![trigger replies[i]]
            0 <= i < chain(request, replies).len() - 1 ==> is_redirect(replies[i].code) && (
            replies[i].location matches Some(target) && link::joined_url(
                chain(request, replies)[i].url.0,
                target,
            ) == Ok::<_, Seq<char>>(chain(request, replies)[i + 1].url)),
        replies.len() > MAX_REDIRECTS ==> chain_end(request, replies) is Some,
        chain_end(request, replies) matches Some((reply, what)) ==> (what is Answer
            <==> !is_redirect(reply.code)) && (what is Fail <==> is_redirect(reply.code)),
        chain_end(request, replies) is None ==> forall|i: int|
            0 <= i < replies.len() ==> is_redirect((#[trigger] replies[i]).code)
                && replies[i].location is Some,
{
    lemma_chain(request, replies);
    assert forall|i: int|
        #![trigger replies[i]]
        0 <= i < chain(request, replies).len() - 1 implies is_redirect(replies[i].code) && (
    replies[i].location matches Some(target) && link::joined_url(
        chain(request, replies)[i].url.0,
        target,
    ) == Ok::<_, Seq<char>>(chain(request, replies)[i + 1].url)) by {
        assert(replied(chain(request, replies)[i], replies[i]) == (
            chain(request, replies)[i + 1],
            RedirectMove::Follow,
        ));
    }
}

/// No redirect carries a cookie of a file away: of the requests of a chain,
/// those that carry one go to archive.org or a subdomain of it.
pub proof fn redirects_keep_cookies_home(
    request: RequestView,
    replies: Seq<Reply>,
    i: int,
    cookies: Vec<cookie::NetscapeCookie>,
    now: u64,
)
    requires
        0 <= i < chain(request, replies).len(),
        cookie::sent(
            Some(CookieSource::Netscape(cookies)),
            chain(request, replies)[i].url,
            now,
        ) is Some,
    ensures
        chain(request, replies)[i].url.2 matches Some(host) && cookie::is_archive_org(
            text::lowered(host),
        ),
{
    cookie::file_headers_stay_on_archive_org(cookies, chain(request, replies)[i].url, now);
}

impl Redirects {
    /// A request to a URL, with a `Range` header or none.
    pub fn new(url: Link, range: Option<String>) -> (r: Self)
        ensures
            r.url == url,
            r.count == 0,
            r.range == range,
    {
        Redirects { url, count: 0, range }
    }

    /// The `Cookie` header for where the request goes next: it is resolved
    /// for every target anew, so that no redirect carries a cookie to where
    /// it does not belong.
    pub fn cookie_header(&self, source: Option<&CookieSource>) -> (r: Result<
        Option<String>,
        IaGetError,
    >)
        ensures
            match cookie::source_value(source) {
                None => r matches Ok(value) && value is None,
                Some(CookieSource::Raw(header)) => r matches Ok(value) && text::maybe(value)
                    == Some(header@),
                Some(CookieSource::Netscape(_)) => (r matches Err(e) && e is SystemTime) || exists|
                    now: u64,
                | cookie::is_header_outcome(r, cookie::source_value(source), self.url@, now),
            },
    {
        cookie_header_for(source, &self.url)
    }

    /// Takes an answer whose location, where it has one, resolved to
    /// `resolved`.
    pub fn follow_to(
        &mut self,
        code: u16,
        location: &Option<String>,
        resolved: Result<Link, UrlFault>,
    ) -> (r: RedirectStep)
        requires
            status::is_status(code),
        ensures
            ({
                let (after, what) = redirected(
                    old(self)@,
                    code,
                    text::maybe(*location),
                    link::link_result(resolved),
                );
                final(self)@ == after && r.is(what)
            }),
            r !is Follow ==> *final(self) == *old(self),
            old(self).count <= MAX_REDIRECTS ==> final(self).count <= MAX_REDIRECTS,
    {
        if !(code == 301 || code == 302 || code == 303 || code == 307 || code == 308) {
            return RedirectStep::Answer;
        }
        if self.count >= MAX_REDIRECTS {
            return RedirectStep::Fail(
                IaGetError::Network {
                    detail: "redirect limit exceeded (10 redirects)".to_owned(),
                    source: None,
                },
            );
        }
        let target = match location {
            Some(target) => target,
            None => {
                let mut detail = text::concat("HTTP ", &status::status_text(code));
                detail.append(" without a usable Location header");
                return RedirectStep::Fail(IaGetError::Network { detail, source: None });
            },
        };
        match resolved {
            Err(fault) => {
                let mut detail = text::concat("invalid redirect target ", &text::quote(target));
                detail.append(": ");
                detail.append(&fault.message);
                RedirectStep::Fail(IaGetError::Network { detail, source: None })
            },
            Ok(url) => {
                self.url = url;
                self.count = self.count + 1;
                RedirectStep::Follow
            },
        }
    }

    /// Takes an answer: the final one, one that sends the request on, or one
    /// that cannot be followed. No more than ten are followed.
    pub fn follow(&mut self, head: &ResponseHead) -> (r: RedirectStep)
        requires
            status::is_status(head.status),
        ensures
            ({
                let (after, what) = replied(old(self)@, reply_of(*head));
                final(self)@ == after && r.is(what)
            }),
            r !is Follow ==> *final(self) == *old(self),
            old(self).count <= MAX_REDIRECTS ==> final(self).count <= MAX_REDIRECTS,
    {
        let location = read_header(&head.location);
        let code: u16 = head.status;
        if !(code == 301 || code == 302 || code == 303 || code == 307 || code == 308) {
            return RedirectStep::Answer;
        }
        let resolved = match &location {
            Some(target) => self.url.join(target),
            None => Err(UrlFault { message: String::new() }),
        };
        self.follow_to(head.status, &location, resolved)
    }
}

// ---------------------------------------------------------------------------
// The transfer, as a machine
// ---------------------------------------------------------------------------

/// Where a transfer stands.
#[derive(Clone, Copy, Debug, PartialEq, Eq, Structural)]
pub enum Phase {
    /// The next attempt begins with the size of the local file.
    Ready,
    /// A request is out; the local file had this size.
    Requested { local_size: u64 },
    /// A body is being written; what its answer said of retrying and of the
    /// modification time, in seconds.
    Streaming { retry_after: Option<u64>, last_modified: Option<u64> },
    /// Nothing follows.
    Finished,
}

/// What a transfer does next, but for its texts.
#[derive(Clone, Copy, Debug, PartialEq, Eq, Structural)]
pub enum Move {
    Send,
    Stream { reset: bool },
    Wait { reset: bool },
    Finish { reset: bool, failed: bool },
}

/// What happens to a transfer, as far as its course depends on it.
pub enum Happening {
    /// The local file has this size.
    Measured { size: u64 },
    /// No answer came.
    Unanswered,
    /// An answer came, with what it says of retrying and of the
    /// modification time.
    Answered {
        status: u16,
        continues: bool,
        retry_after: Option<u64>,
        last_modified: Option<u64>,
    },
    /// The body was read to its end.
    Streamed { base_size: u64, downloaded: u64 },
    /// The body could not be read or written to its end.
    Broken { fatal: bool },
}

/// The course of a transfer: its phase, and how often it was retried.
pub struct Course {
    pub phase: Phase,
    pub retries: nat,
}

/// Whether a happening can follow in a phase. Only a 206 continues a file.
pub open spec fn can_happen(phase: Phase, what: Happening) -> bool {
    match what {
        Happening::Measured { .. } => phase is Ready,
        Happening::Unanswered => phase is Requested,
        Happening::Answered { status, continues, .. } => phase is Requested && (continues ==> status
            == 206),
        Happening::Streamed { .. } => phase is Streaming,
        Happening::Broken { .. } => phase is Streaming,
    }
}

/// The course after a failed attempt: a wait before the next, or the end
/// where the retries are used up.
pub open spec fn after_failure(course: Course, reset: bool) -> (Course, Move) {
    let retries = course.retries + 1;
    if retries > MAX_RETRIES {
        (Course { phase: Phase::Finished, retries }, Move::Finish { reset, failed: true })
    } else {
        (Course { phase: Phase::Ready, retries }, Move::Wait { reset })
    }
}

/// The course of a transfer after a happening, and its move.
///
/// Only the body of a 200 or a 206 is ever written. A file that is being
/// resumed is reset before the body of a 200 is written, and before another
/// attempt where a 206 does not continue it.
pub open spec fn advanced(course: Course, what: Happening, expected_size: Option<u64>) -> (
    Course,
    Move,
) {
    let finished = Course { phase: Phase::Finished, ..course };
    match (course.phase, what) {
        (Phase::Ready, Happening::Measured { size }) => (
            Course { phase: Phase::Requested { local_size: size }, ..course },
            Move::Send,
        ),
        (Phase::Requested { .. }, Happening::Unanswered) => after_failure(course, false),
        (
            Phase::Requested { local_size },
            Happening::Answered { status, continues, retry_after, last_modified },
        ) => {
            let streaming = Course {
                phase: Phase::Streaming { retry_after, last_modified },
                ..course
            };
            if !status::is_success(status) {
                if (local_size > 0 && status == 416) || !is_retryable(status) {
                    (finished, Move::Finish { reset: false, failed: true })
                } else {
                    after_failure(course, false)
                }
            } else if status != 200 && status != 206 {
                (finished, Move::Finish { reset: false, failed: true })
            } else if local_size > 0 && !continues {
                if status == 200 {
                    (streaming, Move::Stream { reset: true })
                } else {
                    after_failure(course, true)
                }
            } else {
                (streaming, Move::Stream { reset: false })
            }
        },
        (Phase::Streaming { .. }, Happening::Streamed { base_size, downloaded }) => if assessed(
            downloaded,
            base_size,
            expected_size,
        ) is Complete {
            (finished, Move::Finish { reset: false, failed: false })
        } else {
            after_failure(course, false)
        },
        (Phase::Streaming { .. }, Happening::Broken { fatal }) => if fatal {
            (finished, Move::Finish { reset: false, failed: true })
        } else {
            after_failure(course, false)
        },
        _ => (course, Move::Finish { reset: false, failed: true }),
    }
}

/// How often a transfer sends a request while a list of things happens.
pub open spec fn requests(
    course: Course,
    happenings: Seq<Happening>,
    expected_size: Option<u64>,
) -> nat
    decreases happenings.len(),
{
    if happenings.len() == 0 {
        0
    } else {
        let (next, what) = advanced(course, happenings.first(), expected_size);
        requests(next, happenings.skip(1), expected_size) + if what is Send {
            1nat
        } else {
            0
        }
    }
}

/// Whether a list of things can happen to a transfer, one after the other.
pub open spec fn can_all_happen(
    course: Course,
    happenings: Seq<Happening>,
    expected_size: Option<u64>,
) -> bool
    decreases happenings.len(),
{
    happenings.len() > 0 ==> can_happen(course.phase, happenings.first()) && can_all_happen(
        advanced(course, happenings.first(), expected_size).0,
        happenings.skip(1),
        expected_size,
    )
}

/// The requests that a transfer has left.
spec fn requests_left(course: Course) -> nat {
    (if course.retries <= MAX_RETRIES {
        (MAX_RETRIES - course.retries) as nat
    } else {
        0
    }) + if course.phase is Ready {
        1nat
    } else {
        0
    }
}

proof fn lemma_requests_are_bounded(
    course: Course,
    happenings: Seq<Happening>,
    expected_size: Option<u64>,
)
    requires
        can_all_happen(course, happenings, expected_size),
    ensures
        requests(course, happenings, expected_size) <= requests_left(course),
    decreases happenings.len(),
{
    if happenings.len() > 0 {
        let (next, what) = advanced(course, happenings.first(), expected_size);
        lemma_requests_are_bounded(next, happenings.skip(1), expected_size);
    }
}

/// Whatever happens, a transfer sends at most eleven requests: one, and a
/// retry for each of ten failures.
pub proof fn transfers_end(happenings: Seq<Happening>, expected_size: Option<u64>)
    requires
        can_all_happen(
            Course { phase: Phase::Ready, retries: 0 },
            happenings,
            expected_size,
        ),
    ensures
        requests(
            Course { phase: Phase::Ready, retries: 0 },
            happenings,
            expected_size,
        ) <= 1 + MAX_RETRIES,
{
    lemma_requests_are_bounded(
        Course { phase: Phase::Ready, retries: 0 },
        happenings,
        expected_size,
    );
}

/// No error page is ever written into a file: a body is written only where
/// the answer was a 200 or a 206.
pub proof fn error_pages_are_never_written(
    course: Course,
    what: Happening,
    expected_size: Option<u64>,
)
    requires
        can_happen(course.phase, what),
        advanced(course, what, expected_size).1 is Stream,
    ensures
        what matches Happening::Answered { status, .. } && (status == 200 || status == 206),
{
}

/// A local prefix is kept only where the body continues it: where a body is
/// written without a reset, the file was empty or the answer continues it.
pub proof fn prefixes_are_only_continued(
    course: Course,
    what: Happening,
    expected_size: Option<u64>,
)
    requires
        can_happen(course.phase, what),
        advanced(course, what, expected_size).1 == (Move::Stream { reset: false }),
    ensures
        what matches Happening::Answered { status, continues, .. } && (course.phase
            matches Phase::Requested { local_size } && (local_size == 0 || continues)),
{
}

/// A rejected resume offset, and a status that is not worth retrying, end a
/// transfer at once.
pub proof fn fatal_statuses_end_at_once(course: Course, what: Happening, expected_size: Option<u64>)
    requires
        can_happen(course.phase, what),
        what matches Happening::Answered { status, .. } && !status::is_success(status) && (
        !is_retryable(status)),
    ensures
        advanced(course, what, expected_size).1 == (Move::Finish { reset: false, failed: true }),
        advanced(course, what, expected_size).0.retries == course.retries,
{
}

/// A body that is read to its end with fewer than the expected bytes in the
/// file never finishes a transfer well: it is tried again, or where the
/// retries are used up the transfer fails.
pub proof fn short_bodies_do_not_finish(
    course: Course,
    base_size: u64,
    downloaded: u64,
    expected_size: Option<u64>,
)
    requires
        course.phase is Streaming,
        expected_size matches Some(expected) && base_size + downloaded < expected,
    ensures
        course.retries < MAX_RETRIES ==> advanced(
            course,
            Happening::Streamed { base_size, downloaded },
            expected_size,
        ).1 is Wait,
        course.retries >= MAX_RETRIES ==> (advanced(
            course,
            Happening::Streamed { base_size, downloaded },
            expected_size,
        ).1 matches Move::Finish { failed, .. } && failed),
{
}

/// What is left of the local file before a body is written, or an attempt
/// ends.
pub open spec fn kept(local: Seq<u8>, reset: bool) -> Seq<u8> {
    if reset {
        Seq::empty()
    } else {
        local
    }
}

/// Whether a body is what its answer says of a whole file: the start of it,
/// or for a 206 that continues the local file what comes behind that, each
/// as far as it came.
pub open spec fn is_honest(what: Happening, local: Seq<u8>, body: Seq<u8>, whole: Seq<u8>) -> bool {
    match what {
        Happening::Answered { status, continues, .. } => if status == 206 && continues {
            local.len() <= whole.len() && body.is_prefix_of(whole.skip(local.len() as int))
        } else if status == 200 || local.len() == 0 {
            body.is_prefix_of(whole)
        } else {
            true
        },
        _ => true,
    }
}

/// A resumed file never holds anything but the start of the whole one:
/// whatever is answered, what was right before is right after.
pub proof fn resuming_keeps_a_prefix(
    course: Course,
    what: Happening,
    expected_size: Option<u64>,
    local: Seq<u8>,
    body: Seq<u8>,
    whole: Seq<u8>,
)
    requires
        course.phase matches Phase::Requested { local_size } && local_size == local.len(),
        can_happen(course.phase, what),
        local.is_prefix_of(whole),
        is_honest(what, local, body, whole),
    ensures
        match advanced(course, what, expected_size).1 {
            Move::Stream { reset } => (kept(local, reset) + body).is_prefix_of(whole),
            Move::Wait { reset } => kept(local, reset).is_prefix_of(whole),
            Move::Finish { reset, .. } => kept(local, reset).is_prefix_of(whole),
            Move::Send => false,
        },
{
    if let Move::Stream { reset } = advanced(course, what, expected_size).1 {
        if what matches Happening::Answered { status, continues, .. } && status == 206
            && continues {
            let rest = whole.skip(local.len() as int);
            assert(whole =~= local + rest);
            assert((local + body) =~= whole.take((local.len() + body.len()) as int)) by {
                assert(rest.take(body.len() as int) =~= body);
            }
        } else {
            assert((kept(local, reset) + body) =~= body);
        }
    }
}

/// A transfer that comes to its end with the expected size holds the whole
/// file, if it held the start of it.
pub proof fn finished_transfers_are_whole(
    course: Course,
    base_size: u64,
    downloaded: u64,
    file: Seq<u8>,
    whole: Seq<u8>,
)
    requires
        course.phase is Streaming,
        whole.len() <= u64::MAX,
        file.len() == base_size + downloaded,
        file.is_prefix_of(whole),
        assessed(downloaded, base_size, Some(whole.len() as u64)) is Complete,
    ensures
        advanced(
            course,
            Happening::Streamed { base_size, downloaded },
            Some(whole.len() as u64),
        ).1 == (Move::Finish { reset: false, failed: false }),
        file == whole,
{
    assert(file =~= whole.take(file.len() as int));
    assert(file =~= whole);
}

/// A transfer together with the local file: its bytes, and how many of them
/// were there before the body that is being written.
pub struct Writing {
    pub course: Course,
    pub file: Seq<u8>,
    pub base: nat,
}

/// Something that happens to a transfer; with an answer, the bytes that its
/// body brings, as far as they come.
pub struct Occurrence {
    pub what: Happening,
    pub body: Seq<u8>,
}

/// A transfer that begins with a local file.
pub open spec fn begun(file: Seq<u8>) -> Writing {
    Writing { course: Course { phase: Phase::Ready, retries: 0 }, file, base: 0 }
}

/// What something that happens makes of a transfer and its file: the file is
/// emptied where the move says so, and a body that is written goes behind
/// what is left.
pub open spec fn written(
    writing: Writing,
    occurrence: Occurrence,
    expected_size: Option<u64>,
) -> Writing {
    let (course, what) = advanced(writing.course, occurrence.what, expected_size);
    match what {
        Move::Send => Writing { course, ..writing },
        Move::Stream { reset } => Writing {
            course,
            file: kept(writing.file, reset) + occurrence.body,
            base: kept(writing.file, reset).len(),
        },
        Move::Wait { reset } => Writing { course, file: kept(writing.file, reset), ..writing },
        Move::Finish { reset, .. } => Writing {
            course,
            file: kept(writing.file, reset),
            ..writing
        },
    }
}

/// A transfer and its file after a list of things happened, one after the
/// other.
pub open spec fn written_all(
    writing: Writing,
    list: Seq<Occurrence>,
    expected_size: Option<u64>,
) -> Writing
    decreases list.len(),
{
    if list.len() == 0 {
        writing
    } else {
        written(
            written_all(writing, list.drop_last(), expected_size),
            list.last(),
            expected_size,
        )
    }
}

/// Whether something can happen to a transfer of a whole file, and is true
/// of it: sizes are those of the local file, and bodies are honest.
pub open spec fn is_faithful(writing: Writing, occurrence: Occurrence, whole: Seq<u8>) -> bool {
    can_happen(writing.course.phase, occurrence.what) && match occurrence.what {
        Happening::Measured { size } => size == writing.file.len(),
        Happening::Answered { .. } => is_honest(
            occurrence.what,
            writing.file,
            occurrence.body,
            whole,
        ),
        Happening::Streamed { base_size, downloaded } => base_size == writing.base && base_size
            + downloaded == writing.file.len(),
        _ => true,
    }
}

/// Whether a list of things can happen to a transfer of a whole file, one
/// after the other, and each is true of it.
pub open spec fn all_faithful(
    writing: Writing,
    list: Seq<Occurrence>,
    expected_size: Option<u64>,
    whole: Seq<u8>,
) -> bool
    decreases list.len(),
{
    list.len() > 0 ==> all_faithful(writing, list.drop_last(), expected_size, whole)
        && is_faithful(
        written_all(writing, list.drop_last(), expected_size),
        list.last(),
        whole,
    )
}

proof fn lemma_written(
    file: Seq<u8>,
    list: Seq<Occurrence>,
    expected_size: Option<u64>,
    whole: Seq<u8>,
)
    requires
        file.is_prefix_of(whole),
        all_faithful(begun(file), list, expected_size, whole),
    ensures
        ({
            let after = written_all(begun(file), list, expected_size);
            after.file.is_prefix_of(whole) && (after.course.phase
                matches Phase::Requested { local_size } ==> local_size == after.file.len())
        }),
    decreases list.len(),
{
    if list.len() > 0 {
        let before = written_all(begun(file), list.drop_last(), expected_size);
        let last = list.last();
        lemma_written(file, list.drop_last(), expected_size, whole);
        if last.what is Answered {
            resuming_keeps_a_prefix(
                before.course,
                last.what,
                expected_size,
                before.file,
                last.body,
                whole,
            );
        } else {
            assert(Seq::<u8>::empty().is_prefix_of(whole));
        }
    }
}

proof fn lemma_faithful_so_far(
    file: Seq<u8>,
    list: Seq<Occurrence>,
    n: int,
    expected_size: Option<u64>,
    whole: Seq<u8>,
)
    requires
        0 <= n <= list.len(),
        all_faithful(begun(file), list, expected_size, whole),
    ensures
        all_faithful(begun(file), list.take(n), expected_size, whole),
    decreases list.len(),
{
    if n == list.len() {
        assert(list.take(n) =~= list);
    } else {
        lemma_faithful_so_far(file, list.drop_last(), n, expected_size, whole);
        assert(list.drop_last().take(n) =~= list.take(n));
    }
}

/// Over a whole transfer, whatever happens and however often it is resumed,
/// the local file never holds anything but the start of the whole one, if it
/// did when the transfer began and every body is what its answer says.
pub proof fn transfers_keep_a_prefix(
    file: Seq<u8>,
    list: Seq<Occurrence>,
    n: int,
    expected_size: Option<u64>,
    whole: Seq<u8>,
)
    requires
        file.is_prefix_of(whole),
        all_faithful(begun(file), list, expected_size, whole),
        0 <= n <= list.len(),
    ensures
        written_all(begun(file), list.take(n), expected_size).file.is_prefix_of(whole),
{
    lemma_faithful_so_far(file, list, n, expected_size, whole);
    lemma_written(file, list.take(n), expected_size, whole);
}

/// A transfer that finishes well, with the size of the whole file expected,
/// leaves the whole file, if it began with the start of it and every body is
/// what its answer says.
pub proof fn finished_transfers_hold_the_file(
    file: Seq<u8>,
    list: Seq<Occurrence>,
    whole: Seq<u8>,
)
    requires
        whole.len() <= u64::MAX,
        file.is_prefix_of(whole),
        all_faithful(begun(file), list, Some(whole.len() as u64), whole),
        list.len() > 0,
        advanced(
            written_all(begun(file), list.drop_last(), Some(whole.len() as u64)).course,
            list.last().what,
            Some(whole.len() as u64),
        ).1 matches Move::Finish { failed, .. } && !failed,
    ensures
        written_all(begun(file), list, Some(whole.len() as u64)).file == whole,
{
    let size = Some(whole.len() as u64);
    let before = written_all(begun(file), list.drop_last(), size);
    lemma_written(file, list.drop_last(), size, whole);
    if let Happening::Streamed { base_size, downloaded } = list.last().what {
        finished_transfers_are_whole(before.course, base_size, downloaded, before.file, whole);
    }
}

// ---------------------------------------------------------------------------
// The transfer
// ---------------------------------------------------------------------------

/// A transfer of one file.
#[derive(Debug)]
pub struct Transfer {
    pub expected_size: Option<u64>,
    pub retry: RetryTracker,
    pub phase: Phase,
}

/// What a transfer does next.
#[derive(Debug)]
pub enum TransferAction {
    /// Send a request, with a `Range` header where the file is resumed.
    Send { range: Option<String> },
    /// Write the body behind the local file, which is emptied before where
    /// `reset` says so.
    Stream { reset: bool },
    /// Empty the local file where `reset` says so, show why the attempt
    /// failed, and wait before the next one.
    Wait {
        reset: bool,
        kind: String,
        detail: String,
        attempt: u32,
        delay_ms: u128,
        server_requested: bool,
    },
    /// Empty the local file where `reset` says so; the transfer is over,
    /// with the modification time that the server gave, in Unix seconds.
    Finish { reset: bool, outcome: Result<Option<u64>, IaGetError> },
}

impl TransferAction {
    /// The action but for its texts.
    pub open spec fn as_move(self) -> Move {
        match self {
            TransferAction::Send { .. } => Move::Send,
            TransferAction::Stream { reset } => Move::Stream { reset },
            TransferAction::Wait { reset, .. } => Move::Wait { reset },
            TransferAction::Finish { reset, outcome } => Move::Finish {
                reset,
                failed: outcome is Err,
            },
        }
    }
}

/// Whether an action is what follows a failure that makes it the `count`-th.
pub open spec fn is_failure_action(
    action: TransferAction,
    count: u32,
    kind: Seq<char>,
    detail: Seq<char>,
    retry_after: Option<u64>,
    seed: u64,
) -> bool {
    if count > MAX_RETRIES {
        action matches TransferAction::Finish { outcome, .. } && (outcome matches Err(e)
            && e.is_network(retry::retries_exceeded(kind, detail)))
    } else {
        action matches TransferAction::Wait {
            kind: k,
            detail: d,
            attempt,
            delay_ms,
            server_requested,
            ..
        } && k@ == kind && d@ == detail && attempt == count && delay_ms == retry::delay_of(
            retry_after,
            count as nat,
            seed,
        ) && server_requested == retry_after is Some
    }
}

/// The wait that an answer asks for, at a time.
pub open spec fn asked_wait(head: ResponseHead, now_nanos: int) -> Option<u64> {
    match header::header_reads(header::raw_view(head.retry_after)) {
        Some(value) => retry::retry_after(value, now_nanos),
        None => None,
    }
}

/// An answer as something that happens to a transfer.
pub open spec fn answer(head: ResponseHead, local_size: u64, now_nanos: int) -> Happening {
    Happening::Answered {
        status: head.status,
        continues: is_continuation(head, local_size),
        retry_after: asked_wait(head, now_nanos),
        last_modified: mtime::last_modified(header::raw_view(head.last_modified)),
    }
}

/// The texts of what follows an answer.
pub open spec fn is_answer_action(
    action: TransferAction,
    head: ResponseHead,
    local_size: u64,
    count: u32,
    moment: Moment,
) -> bool {
    let code = head.status;
    let reason = status::reason_or(code, "unknown status"@);
    let wait = asked_wait(head, moment.now_nanos as int);
    let refused = "Server responded with HTTP "@ + status::status_line(code) + " "@ + reason;
    if !status::is_success(code) {
        if local_size > 0 && code == 416 {
            action matches TransferAction::Finish { outcome, .. } && (outcome matches Err(e) && e
                is RangeNotSatisfiable)
        } else if !is_retryable(code) {
            action matches TransferAction::Finish { outcome, .. } && (outcome matches Err(e)
                && e.is_network(refused))
        } else {
            is_failure_action(
                action,
                count,
                "HTTP "@ + status::status_line(code),
                reason,
                wait,
                moment.seed,
            )
        }
    } else if code != 200 && code != 206 {
        action matches TransferAction::Finish { outcome, .. } && (outcome matches Err(e)
            && e.is_network(refused + ": not a downloadable body"@))
    } else if local_size > 0 && code == 206 && !is_continuation(head, local_size) {
        is_failure_action(
            action,
            count,
            "Bad 206"@,
            "Content-Range does not continue the local prefix ("@ + text::decimal(
                local_size as nat,
            ) + " bytes); re-requesting from scratch"@,
            wait,
            moment.seed,
        )
    } else {
        action is Stream
    }
}

/// The value of the `Range` header that resumes behind a number of bytes.
pub open spec fn resume_range(size: nat) -> Seq<char> {
    "bytes="@ + text::decimal(size) + "-"@
}

proof fn lemma_range_is_header_text(size: nat)
    ensures
        header::is_header_text(resume_range(size)),
{
    reveal_strlit("bytes=");
    reveal_strlit("-");
    text::lemma_decimal(size);
    let s = resume_range(size);
    let n = text::decimal(size).len();
    assert forall|i: int| 0 <= i < s.len() implies 32 <= #[trigger] s[i] as u32 && s[i] as u32
        <= 126 by {
        if 6 <= i < 6 + n {
            assert(text::is_digit(text::decimal(size)[i - 6]));
        }
    }
    assert(utf8::is_ascii_chars(s)) by {
        assert forall|i: int| 0 <= i < s.len() implies '\0' <= #[trigger] s[i] <= '\u{7f}' by {
            assert(32 <= s[i] as u32 && s[i] as u32 <= 126);
            lemma_small_char(s[i]);
        }
    }
    utf8::is_ascii_chars_encode_utf8(s);
    assert forall|i: int| 0 <= i < utf8::encode_utf8(s).len() implies header::is_header_byte(
        #[trigger] utf8::encode_utf8(s)[i],
    ) by {
        assert(s[i] as u8 == utf8::encode_utf8(s)[i]);
        lemma_small_char(s[i]);
    }
}

proof fn lemma_small_char(c: char)
    requires
        32 <= c as u32 <= 126,
    ensures
        '\0' <= c <= '\u{7f}',
        32 <= c as u8 <= 126,
{
}

impl Transfer {
    /// The course of the transfer.
    pub open spec fn course(&self) -> Course {
        Course { phase: self.phase, retries: self.retry.count as nat }
    }

    /// Whether the transfer is where one can be.
    pub open spec fn is_valid(&self) -> bool {
        self.retry.count <= MAX_RETRIES + 1 && (self.retry.count > MAX_RETRIES ==> self.phase
            is Finished)
    }

    /// Whether the transfer advanced by what happened, and its action is the
    /// move for that.
    pub open spec fn advances(
        before: Transfer,
        what: Happening,
        after: Transfer,
        action: TransferAction,
    ) -> bool {
        let (course, next) = advanced(before.course(), what, before.expected_size);
        &&& after.is_valid()
        &&& after.expected_size == before.expected_size
        &&& after.course().phase == course.phase
        &&& after.course().retries == course.retries
        &&& action.as_move() == next
    }

    /// A transfer that has not begun.
    pub fn new(expected_size: Option<u64>) -> (r: Self)
        ensures
            r.expected_size == expected_size,
            r.phase == Phase::Ready,
            r.retry.count == 0,
            r.is_valid(),
    {
        Transfer { expected_size, retry: RetryTracker::new(), phase: Phase::Ready }
    }

    /// Takes the size of the local file, with which every attempt begins: a
    /// file that has bytes is resumed behind them.
    pub fn measured(&mut self, size: u64) -> (r: TransferAction)
        requires
            old(self).is_valid(),
            old(self).phase is Ready,
        ensures
            Self::advances(*old(self), Happening::Measured { size }, *final(self), r),
            r matches TransferAction::Send { range } && text::maybe(range) == (if size > 0 {
                Some(resume_range(size as nat))
            } else {
                None
            }),
    {
        self.phase = Phase::Requested { local_size: size };
        if size == 0 {
            return TransferAction::Send { range: None };
        }
        let mut value = "bytes=".to_owned();
        text::push_decimal(&mut value, size);
        value.append("-");
        proof {
            lemma_range_is_header_text(size as nat);
        }
        match header_value(&value) {
            Ok(range) => TransferAction::Send { range: Some(range) },
            Err(_) => TransferAction::Send { range: None },
        }
    }

    /// Records a failed attempt.
    fn fail(
        &mut self,
        reset: bool,
        kind: &str,
        detail: &str,
        retry_after: Option<u64>,
        seed: u64,
    ) -> (r: TransferAction)
        requires
            old(self).is_valid(),
            old(self).phase !is Finished,
        ensures
            final(self).is_valid(),
            final(self).expected_size == old(self).expected_size,
            final(self).course().phase == after_failure(old(self).course(), reset).0.phase,
            final(self).course().retries == after_failure(old(self).course(), reset).0.retries,
            r.as_move() == after_failure(old(self).course(), reset).1,
            is_failure_action(r, final(self).retry.count, kind@, detail@, retry_after, seed),
    {
        match self.retry.record_with_seed(kind, detail, retry_after, seed) {
            RetryStep::GiveUp(e) => {
                self.phase = Phase::Finished;
                TransferAction::Finish { reset, outcome: Err(e) }
            },
            RetryStep::Wait { attempt, delay_ms, server_requested } => {
                self.phase = Phase::Ready;
                TransferAction::Wait {
                    reset,
                    kind: kind.to_owned(),
                    detail: detail.to_owned(),
                    attempt,
                    delay_ms,
                    server_requested,
                }
            },
        }
    }

    fn finish(&mut self, outcome: Result<Option<u64>, IaGetError>) -> (r: TransferAction)
        ensures
            final(self).expected_size == old(self).expected_size,
            final(self).retry == old(self).retry,
            final(self).phase == Phase::Finished,
            r == (TransferAction::Finish { reset: false, outcome }),
    {
        self.phase = Phase::Finished;
        TransferAction::Finish { reset: false, outcome }
    }

    /// Takes that no answer came, and why.
    pub fn unanswered(&mut self, error: &IaGetError, moment: Moment) -> (r: TransferAction)
        requires
            old(self).is_valid(),
            old(self).phase is Requested,
        ensures
            Self::advances(*old(self), Happening::Unanswered, *final(self), r),
            is_failure_action(
                r,
                final(self).retry.count,
                "Connection error"@,
                error.text(),
                None,
                moment.seed,
            ),
    {
        self.fail(false, "Connection error", &error.to_text(), None, moment.seed)
    }

    /// Takes an answer: its body is written, or it is tried again, or the
    /// transfer is over.
    pub fn answered(&mut self, head: &ResponseHead, moment: Moment) -> (r: TransferAction)
        requires
            old(self).is_valid(),
            old(self).phase is Requested,
            status::is_status(head.status),
        ensures
            ({
                let local_size = old(self).phase->Requested_local_size;
                &&& Self::advances(
                    *old(self),
                    answer(*head, local_size, moment.now_nanos as int),
                    *final(self),
                    r,
                )
                &&& is_answer_action(r, *head, local_size, final(self).retry.count, moment)
            }),
    {
        let local_size: u64 = match self.phase {
            Phase::Requested { local_size } => local_size,
            _ => 0,
        };
        let code: u16 = head.status;
        let retry_after = match read_header(&head.retry_after) {
            Some(value) => parse_retry_after_at(&value, moment.now_nanos),
            None => None,
        };
        let last_modified = parse_last_modified(&head.last_modified);
        if code < 200 || code >= 300 {
            if local_size > 0 && code == 416 {
                return self.finish(Err(IaGetError::RangeNotSatisfiable));
            }
            let reason = status::reason_text(code, "unknown status");
            if !is_retryable_status(code) {
                let mut detail = text::concat(
                    "Server responded with HTTP ",
                    &status::status_text(code),
                );
                detail.append(" ");
                detail.append(&reason);
                return self.finish(Err(IaGetError::Network { detail, source: None }));
            }
            let kind = text::concat("HTTP ", &status::status_text(code));
            return self.fail(false, &kind, &reason, retry_after, moment.seed);
        }
        if code != 200 && code != 206 {
            let mut detail = text::concat(
                "Server responded with HTTP ",
                &status::status_text(code),
            );
            detail.append(" ");
            detail.append(&status::reason_text(code, "unknown status"));
            detail.append(": not a downloadable body");
            return self.finish(Err(IaGetError::Network { detail, source: None }));
        }
        let mut reset = false;
        if local_size > 0 && !prefix_trusted(head, local_size) {
            if code == 206 {
                let mut detail = "Content-Range does not continue the local prefix (".to_owned();
                text::push_decimal(&mut detail, local_size);
                detail.append(" bytes); re-requesting from scratch");
                return self.fail(true, "Bad 206", &detail, retry_after, moment.seed);
            }
            reset = true;
        }
        self.phase = Phase::Streaming { retry_after, last_modified };
        TransferAction::Stream { reset }
    }

    /// Takes that the body was read to its end: `base_size` bytes were in the
    /// file before, `downloaded` came.
    pub fn streamed(&mut self, base_size: u64, downloaded: u64, moment: Moment) -> (r:
        TransferAction)
        requires
            old(self).is_valid(),
            old(self).phase is Streaming,
            base_size + downloaded <= u64::MAX,
        ensures
            Self::advances(
                *old(self),
                Happening::Streamed { base_size, downloaded },
                *final(self),
                r,
            ),
            ({
                let wait = old(self).phase->Streaming_retry_after;
                match assessed(downloaded, base_size, old(self).expected_size) {
                    StreamedBody::Complete => r matches TransferAction::Finish { outcome, .. }
                        && (outcome matches Ok(time) && time
                        == old(self).phase->Streaming_last_modified),
                    StreamedBody::Empty => is_failure_action(
                        r,
                        final(self).retry.count,
                        "Empty response"@,
                        "server returned no data"@,
                        wait,
                        moment.seed,
                    ),
                    StreamedBody::Incomplete { received, expected } => is_failure_action(
                        r,
                        final(self).retry.count,
                        "Incomplete body"@,
                        "received "@ + text::decimal(received as nat) + " of "@ + text::decimal(
                            expected as nat,
                        ) + " bytes"@,
                        wait,
                        moment.seed,
                    ),
                }
            }),
    {
        let mut retry_after: Option<u64> = None;
        let mut last_modified: Option<u64> = None;
        if let Phase::Streaming { retry_after: wait, last_modified: time } = self.phase {
            retry_after = wait;
            last_modified = time;
        }
        match assess_streamed_body(downloaded, base_size, self.expected_size) {
            StreamedBody::Complete => self.finish(Ok(last_modified)),
            StreamedBody::Empty => self.fail(
                false,
                "Empty response",
                "server returned no data",
                retry_after,
                moment.seed,
            ),
            StreamedBody::Incomplete { received, expected } => {
                let mut detail = "received ".to_owned();
                text::push_decimal(&mut detail, received);
                detail.append(" of ");
                text::push_decimal(&mut detail, expected);
                detail.append(" bytes");
                self.fail(false, "Incomplete body", &detail, retry_after, moment.seed)
            },
        }
    }

    /// Takes that the body could not be read or written to its end. A request
    /// to stop and a full disk end the transfer; anything else is tried again
    /// behind what was written.
    pub fn broken(&mut self, error: IaGetError, moment: Moment) -> (r: TransferAction)
        requires
            old(self).is_valid(),
            old(self).phase is Streaming,
        ensures
            ({
                let fatal = error is Interrupted || is_disk_full(error);
                &&& Self::advances(*old(self), Happening::Broken { fatal }, *final(self), r)
                &&& if fatal {
                    r matches TransferAction::Finish { outcome, .. } && outcome == Err::<
                        Option<u64>,
                        IaGetError,
                    >(error)
                } else {
                    is_failure_action(
                        r,
                        final(self).retry.count,
                        "Download error"@,
                        error.text(),
                        None,
                        moment.seed,
                    )
                }
            }),
    {
        let fatal = match &error {
            IaGetError::Interrupted => true,
            e => is_disk_full_error(e),
        };
        if fatal {
            return self.finish(Err(error));
        }
        self.fail(false, "Download error", &error.to_text(), None, moment.seed)
    }
}

/// The URL of a transfer, or the error for a text that is none.
pub fn transfer_url(address: &str) -> (r: Result<Link, IaGetError>)
    ensures
        match link::parsed_url(address@) {
            Ok(parts) => r matches Ok(url) && url@ == parts,
            Err(message) => r matches Err(e) && e.is_network(
                "invalid URL "@ + text::quoted(address@) + ": "@ + message,
            ),
        },
{
    match Link::parse(address) {
        Ok(url) => Ok(url),
        Err(fault) => {
            let mut detail = text::concat("invalid URL ", &text::quote(address));
            detail.append(": ");
            detail.append(&fault.message);
            Err(IaGetError::Network { detail, source: None })
        },
    }
}

// ---------------------------------------------------------------------------
// What answers lead to
// ---------------------------------------------------------------------------

/// Whether a header holds the ASCII bytes of a text.
pub open spec fn holds_text(raw: Option<Vec<u8>>, value: Seq<char>) -> bool {
    raw matches Some(bytes) && bytes@.len() == value.len() && forall|i: int|
        0 <= i < value.len() ==> (#[trigger] bytes@[i]) as char == value[i] && 32 <= bytes@[i]
            <= 126
}

/// The statuses of throttling and of passing troubles of a server.
pub open spec fn is_transient(code: u16) -> bool {
    seq![408u16, 425, 429, 500, 502, 503, 504].contains(code)
}

proof fn lemma_transient(code: u16)
    ensures
        is_transient(code) <==> is_retryable(code),
{
    let list = seq![408u16, 425, 429, 500, 502, 503, 504];
    if is_retryable(code) {
        assert(list[0] == 408 && list[1] == 425 && list[2] == 429 && list[3] == 500 && list[4]
            == 502 && list[5] == 503 && list[6] == 504);
    }
}

proof fn lemma_holds_text(raw: Option<Vec<u8>>, value: Seq<char>)
    requires
        holds_text(raw, value),
    ensures
        header::header_reads(header::raw_view(raw)) == Some(value),
{
    header::visible_headers_are_read(header::raw_view(raw), value);
}

/// Whatever the transient status, a `Retry-After` header of seconds is
/// honored: while retries are left, the transfer waits exactly as long as
/// the server asked for, up to 900 seconds, and says that it was asked to.
pub proof fn retry_after_is_honored(
    action: TransferAction,
    head: ResponseHead,
    local_size: u64,
    count: u32,
    moment: Moment,
    n: nat,
)
    requires
        is_answer_action(action, head, local_size, count, moment),
        is_transient(head.status),
        holds_text(head.retry_after, text::decimal(n)),
        n <= u64::MAX,
        count <= 10,
    ensures
        action matches TransferAction::Wait { attempt, delay_ms, server_requested, .. } && attempt
            == count && server_requested && delay_ms == 1000 * (if n <= 900 {
            n
        } else {
            900
        }),
{
    lemma_transient(head.status);
    lemma_holds_text(head.retry_after, text::decimal(n));
    let none = Seq::<char>::empty();
    retry::seconds_are_waited_as_written(n, none, none, moment.now_nanos as int);
    assert(none + text::decimal(n) + none =~= text::decimal(n));
}

/// Without a `Retry-After` header a transient status is retried after the
/// delay that grows: five seconds, twice as much each time up to a minute,
/// varied by a fifth.
pub proof fn transient_statuses_back_off(
    action: TransferAction,
    head: ResponseHead,
    local_size: u64,
    count: u32,
    moment: Moment,
)
    requires
        is_answer_action(action, head, local_size, count, moment),
        is_transient(head.status),
        head.retry_after is None,
        count <= 10,
    ensures
        action matches TransferAction::Wait { attempt, delay_ms, server_requested, .. } && attempt
            == count && !server_requested && {
            &&& count <= 1 ==> 4_000 <= delay_ms <= 6_000
            &&& count == 2 ==> 8_000 <= delay_ms <= 12_000
            &&& count == 3 ==> 16_000 <= delay_ms <= 24_000
            &&& count == 4 ==> 32_000 <= delay_ms <= 48_000
            &&& count >= 5 ==> 48_000 <= delay_ms <= 72_000
        },
{
    lemma_transient(head.status);
    header::visible_headers_are_read(header::raw_view(head.retry_after), Seq::empty());
    retry::backoff_stays_within_bounds(count as nat, moment.seed);
}

/// What an answer leads to is decided by its status, the local bytes and
/// where its range starts, and by nothing else. A transient status is tried
/// again, and fails after the tenth retry; a 416 to a resumed file is
/// reported as that; any other status but 200 and 206 fails at once; a 200
/// is written from the start, and a 206 behind the local bytes, if its range
/// starts there.
pub proof fn statuses_decide(
    action: TransferAction,
    head: ResponseHead,
    local_size: u64,
    count: u32,
    moment: Moment,
    course: Course,
    expected_size: Option<u64>,
)
    requires
        is_answer_action(action, head, local_size, count, moment),
        course.phase == (Phase::Requested { local_size }),
        action.as_move() == advanced(
            course,
            answer(head, local_size, moment.now_nanos as int),
            expected_size,
        ).1,
        count == course.retries + 1 || count == course.retries,
        advanced(course, answer(head, local_size, moment.now_nanos as int), expected_size).0.retries
            == count,
    ensures
        is_transient(head.status) ==> (if count <= 10 {
            action matches TransferAction::Wait { reset, .. } && !reset
        } else {
            action matches TransferAction::Finish { reset, outcome } && !reset && outcome is Err
        }),
        head.status == 416 && local_size > 0 ==> (action matches TransferAction::Finish {
            reset,
            outcome,
        } && !reset && (outcome matches Err(e) && e is RangeNotSatisfiable)),
        !is_transient(head.status) && head.status != 200 && head.status != 206 && !(head.status
            == 416 && local_size > 0) ==> (action matches TransferAction::Finish { reset, outcome }
            && !reset && (outcome matches Err(e) && e is Network)),
        head.status == 200 ==> action == (TransferAction::Stream { reset: local_size > 0 }),
        head.status == 206 && local_size == 0 ==> action == (TransferAction::Stream {
            reset: false,
        }),
        head.status == 206 && local_size > 0 ==> (if range_continues(
            header::raw_view(head.content_range),
            local_size,
        ) == Some(true) {
            action == (TransferAction::Stream { reset: false })
        } else if count <= 10 {
            action matches TransferAction::Wait { reset, .. } && reset
        } else {
            action matches TransferAction::Finish { reset, outcome } && reset && outcome is Err
        }),
{
    lemma_transient(head.status);
}

/// While a body is written, the wait that its answer asked for and the time
/// that it gave are kept for when the body ends.
pub proof fn answers_are_remembered(
    head: ResponseHead,
    local_size: u64,
    now_nanos: int,
    n: nat,
    retries: nat,
    expected_size: Option<u64>,
)
    requires
        head.status == 200 || (head.status == 206 && local_size == 0),
        n <= 900,
        holds_text(head.retry_after, text::decimal(n)),
    ensures
        ({
            let course = Course { phase: Phase::Requested { local_size }, retries };
            let (next, what) = advanced(
                course,
                answer(head, local_size, now_nanos),
                expected_size,
            );
            what is Stream && next.retries == retries && (next.phase matches Phase::Streaming {
                retry_after,
                last_modified,
            } && retry_after == Some(n as u64) && last_modified == mtime::last_modified(
                header::raw_view(head.last_modified),
            ))
        }),
{
    lemma_holds_text(head.retry_after, text::decimal(n));
    let none = Seq::<char>::empty();
    retry::seconds_are_waited_as_written(n, none, none, now_nanos);
    assert(none + text::decimal(n) + none =~= text::decimal(n));
}

/// A well-formed `Content-Range` header, of the first and last byte and the
/// total or a star, says whether the body starts at an offset.
pub proof fn well_formed_ranges_are_read(
    raw: Option<Vec<u8>>,
    first: nat,
    last: nat,
    total: Option<nat>,
    offset: u64,
)
    requires
        first <= last <= u64::MAX,
        total matches Some(n) ==> last < n <= u64::MAX,
        holds_text(
            raw,
            "bytes "@ + text::decimal(first) + "-"@ + text::decimal(last) + "/"@ + match total {
                Some(n) => text::decimal(n),
                None => "*"@,
            },
        ),
    ensures
        range_continues(header::raw_view(raw), offset) == Some(first == offset),
{
    let ending = match total {
        Some(n) => text::decimal(n),
        None => "*"@,
    };
    let a = text::decimal(first);
    let b = text::decimal(last);
    let value = "bytes "@ + a + "-"@ + b + "/"@ + ending;
    lemma_holds_text(raw, value);
    reveal_strlit("bytes ");
    reveal_strlit("-");
    reveal_strlit("/");
    reveal_strlit("*");
    text::lemma_decimal(first);
    text::lemma_decimal(last);
    text::reading_a_written_number(first);
    text::reading_a_written_number(last);
    let rest = value.skip(6);
    assert(value.subrange(0, 6) =~= "bytes "@);
    assert("bytes "@.is_prefix_of(value));
    let range = a + "-"@ + b;
    assert(rest =~= range + "/"@ + ending);
    text::lemma_position(rest, '/');
    let slash = text::position(rest, '/');
    assert forall|i: int| 0 <= i < range.len() implies rest[i] != '/' by {
        if i < a.len() {
            assert(text::is_digit(a[i]));
        } else if i > a.len() {
            assert(text::is_digit(b[i - a.len() - 1]));
            assert(rest[i] == b[i - a.len() - 1]);
        }
    }
    assert(rest[range.len() as int] == '/');
    assert(slash == range.len());
    assert(rest.take(slash) =~= range);
    assert(rest.skip(slash + 1) =~= ending);
    text::lemma_position(range, '-');
    let dash = text::position(range, '-');
    assert forall|i: int| 0 <= i < a.len() implies range[i] != '-' by {
        assert(text::is_digit(a[i]));
    }
    assert(range[a.len() as int] == '-');
    assert(dash == a.len());
    assert(range.take(dash) =~= a);
    assert(range.skip(dash + 1) =~= b);
    if let Some(n) = total {
        text::reading_a_written_number(n);
    }
}

/// A resumed request asks for what follows the local bytes.
pub proof fn resumed_requests_ask_for_the_rest(size: nat)
    ensures
        resume_range(size) == "bytes="@ + text::decimal(size) + "-"@,
{
}

/// A body that was read to its end is complete exactly where the file has at
/// least the expected bytes, or none are expected; it is empty exactly where
/// nothing came though something was expected, and otherwise falls short by
/// what is missing.
pub proof fn bodies_are_measured_by_the_expected_size(
    downloaded: u64,
    base_size: u64,
    expected_size: Option<u64>,
)
    requires
        base_size + downloaded <= u64::MAX,
    ensures
        assessed(downloaded, base_size, expected_size) is Complete <==> (expected_size
            matches Some(n) ==> base_size + downloaded >= n),
        assessed(downloaded, base_size, expected_size) is Empty <==> (expected_size matches Some(n)
            && n > 0 && base_size == 0 && downloaded == 0),
        assessed(downloaded, base_size, expected_size) matches StreamedBody::Incomplete {
            received,
            expected,
        } ==> received == base_size + downloaded && expected_size == Some(expected),
{
}

/// What becomes of a transfer when a body ends, when it breaks off, and when
/// no answer comes: a complete one finishes it well, with the time that the
/// server gave; a full disk or a request to stop ends it; anything else is
/// tried again while retries are left.
pub proof fn bodies_finish_or_are_tried_again(
    course: Course,
    what: Happening,
    expected_size: Option<u64>,
)
    requires
        can_happen(course.phase, what),
        what is Streamed || what is Broken || what is Unanswered,
    ensures
        ({
            let (next, m) = advanced(course, what, expected_size);
            let well = match what {
                Happening::Streamed { base_size, downloaded } => expected_size matches Some(n)
                    ==> base_size + downloaded >= n,
                _ => false,
            };
            let fatal = match what {
                Happening::Broken { fatal } => fatal,
                _ => false,
            };
            &&& well ==> m == (Move::Finish { reset: false, failed: false })
            &&& fatal ==> m == (Move::Finish { reset: false, failed: true })
            &&& !well && !fatal && course.retries < 10 ==> m == (Move::Wait { reset: false })
                && next == (Course { phase: Phase::Ready, retries: course.retries + 1 })
            &&& !well && !fatal && course.retries >= 10 ==> m == (Move::Finish {
                reset: false,
                failed: true,
            })
        }),
{
}

/// The statuses that send a request on are the five with a location, and a
/// request follows ten at most.
pub proof fn redirects_are_the_five_statuses(code: u16)
    ensures
        is_redirect(code) <==> seq![301u16, 302, 303, 307, 308].contains(code),
        MAX_REDIRECTS == 10,
{
    let list = seq![301u16, 302, 303, 307, 308];
    assert(list[0] == 301 && list[1] == 302 && list[2] == 303 && list[3] == 307 && list[4] == 308);
}

/// Only a full disk among the errors of writing ends a transfer.
pub proof fn only_full_disks_are_fatal(e: IaGetError)
    ensures
        is_disk_full(e) <==> (e matches IaGetError::FileSystem { source, .. } && (source
            matches Some(fault) && fault.kind is StorageFull)),
{
}

/// A `Content-Range` value that is read has every part: the unit, the first
/// and the last byte in order, and a star or a total beyond the last byte.
pub proof fn read_ranges_have_every_part(value: Seq<char>)
    requires
        range_start(value) is Some,
    ensures
        exists|a: Seq<char>, b: Seq<char>, t: Seq<char>|
            value == "bytes "@ + a + "-"@ + b + "/"@ + t && #[trigger] has_parts(
                a,
                b,
                t,
                range_start(value)->0,
            ),
{
    let unit = "bytes "@;
    let rest = value.skip(unit.len() as int);
    let slash = text::position(rest, '/');
    let range = rest.take(slash);
    let dash = text::position(range, '-');
    let a = range.take(dash);
    let b = range.skip(dash + 1);
    let t = rest.skip(slash + 1);
    assert(value =~= unit + rest);
    assert(rest == range + "/"@ + t) by {
        lemma_parted(rest, '/', "/"@);
    }
    assert(range == a + "-"@ + b) by {
        lemma_parted(range, '-', "-"@);
    }
    lemma_six_pieces(unit, a, "-"@, b, "/"@, t);
    assert(has_parts(a, b, t, range_start(value)->0));
}

proof fn lemma_parted(s: Seq<char>, c: char, sep: Seq<char>)
    requires
        text::position(s, c) < s.len(),
        (c == '/' && sep == "/"@) || (c == '-' && sep == "-"@),
    ensures
        s == s.take(text::position(s, c)) + sep + s.skip(text::position(s, c) + 1),
{
    reveal_strlit("-");
    reveal_strlit("/");
    text::lemma_position(s, c);
    assert(sep =~= seq![c]);
    assert(s =~= s.take(text::position(s, c)) + sep + s.skip(text::position(s, c) + 1));
}

proof fn lemma_six_pieces(
    unit: Seq<char>,
    a: Seq<char>,
    d: Seq<char>,
    b: Seq<char>,
    s: Seq<char>,
    t: Seq<char>,
)
    ensures
        unit + (a + d + b + s + t) == unit + a + d + b + s + t,
{
    assert(unit + (a + d + b + s + t) =~= unit + a + d + b + s + t);
}

/// Whether texts are the first byte, the last and the total of a range that
/// starts at an offset.
pub open spec fn has_parts(a: Seq<char>, b: Seq<char>, t: Seq<char>, start: nat) -> bool {
    text::unsigned(a) == Some(start) && start <= u64::MAX && (text::unsigned(b) matches Some(last)
        && start <= last <= u64::MAX && (t == "*"@ || (text::unsigned(t) matches Some(n) && last < n
        <= u64::MAX)))
}

/// A redirect is followed to where it leads, with the same range, while
/// fewer than ten were; the eleventh, one without a location and one whose
/// location is no URL fail, and say why. Any other answer is handed on.
pub proof fn redirects_are_followed_or_fail(
    request: RequestView,
    code: u16,
    location: Option<Seq<char>>,
    resolved: Result<(Seq<char>, Seq<char>, Option<Seq<char>>, Seq<char>), Seq<char>>,
)
    ensures
        ({
            let (next, what) = redirected(request, code, location, resolved);
            let leads_on = code == 301 || code == 302 || code == 303 || code == 307 || code == 308;
            &&& !leads_on ==> what is Answer && next == request
            &&& leads_on && request.count < 10 && location is Some && resolved is Ok ==> what
                is Follow && next.url == resolved->Ok_0 && next.count == request.count + 1
                && next.range == request.range
            &&& leads_on && request.count >= 10 ==> (what matches RedirectMove::Fail { detail }
                && detail == "redirect limit exceeded (10 redirects)"@)
            &&& leads_on && request.count < 10 && location is None ==> (what
                matches RedirectMove::Fail { detail } && detail == "HTTP "@ + status::status_line(
                code,
            ) + " without a usable Location header"@)
            &&& leads_on && request.count < 10 && location is Some && resolved is Err ==> (what
                matches RedirectMove::Fail { detail } && detail == "invalid redirect target "@
                + text::quoted(location->0) + ": "@ + resolved->Err_0)
            &&& what is Fail ==> next == request
        }),
{
}

/// The progress of a body ends at the local bytes and its length together;
/// without a length at the expected size, and without that where it starts.
pub proof fn progress_ends_where_the_file_does(rest: u64, base_size: u64, size: u64)
    ensures
        forall|expected: Option<u64>| #[trigger]
            progress_end(Some(rest), base_size, expected) == base_size + rest,
        progress_end(None, base_size, Some(size)) == size,
        progress_end(None, base_size, None) == base_size,
{
}

/// What an answer is refused for is said: the status with its reason, and of
/// a 206 that does not continue the file how many bytes there are.
pub proof fn refused_answers_are_named(
    action: TransferAction,
    head: ResponseHead,
    local_size: u64,
    count: u32,
    moment: Moment,
)
    requires
        is_answer_action(action, head, local_size, count, moment),
        head.status != 200,
        !(head.status == 416 && local_size > 0),
    ensures
        is_transient(head.status) && count <= 10 ==> (action matches TransferAction::Wait {
            kind,
            detail,
            ..
        } && kind@ == "HTTP "@ + status::status_line(head.status) && detail@ == status::reason_or(
            head.status,
            "unknown status"@,
        )),
        is_transient(head.status) && count > 10 ==> (action matches TransferAction::Finish {
            outcome,
            ..
        } && (outcome matches Err(e) && e.is_network(
            "HTTP "@ + status::status_line(head.status) + ": "@ + status::reason_or(
                head.status,
                "unknown status"@,
            ) + " (maximum retries 10 exceeded)"@,
        ))),
        !is_transient(head.status) && head.status != 206 ==> (action
            matches TransferAction::Finish { outcome, .. } && (outcome matches Err(e) && (e
            matches IaGetError::Network { detail, source } && source is None && (
        "Server responded with HTTP "@ + status::status_line(head.status)).is_prefix_of(detail@)))),
        head.status == 206 && local_size > 0 && range_continues(
            header::raw_view(head.content_range),
            local_size,
        ) != Some(true) && count <= 10 ==> (action matches TransferAction::Wait {
            kind,
            detail,
            ..
        } && kind@ == "Bad 206"@ && detail@
            == "Content-Range does not continue the local prefix ("@ + text::decimal(
            local_size as nat,
        ) + " bytes); re-requesting from scratch"@),
{
    let said = "Server responded with HTTP "@ + status::status_line(head.status);
    let reason = status::reason_or(head.status, "unknown status"@);
    let refused = said + " "@ + reason;
    assert(refused.take(said.len() as int) =~= said);
    assert((refused + ": not a downloadable body"@).take(said.len() as int) =~= said);
}

/// Any failure that is not final is followed by a wait: as long as the
/// server asked for, or the delay that grows with the failures; the eleventh
/// ends the transfer, with what failed in its words.
pub proof fn failures_wait_or_end(
    action: TransferAction,
    count: u32,
    kind: Seq<char>,
    detail: Seq<char>,
    retry_after: Option<u64>,
    seed: u64,
)
    requires
        is_failure_action(action, count, kind, detail, retry_after, seed),
    ensures
        count <= 10 ==> (action matches TransferAction::Wait {
            kind: k,
            detail: d,
            attempt,
            delay_ms,
            server_requested,
            ..
        } && k@ == kind && d@ == detail && attempt == count && (server_requested <==> retry_after
            is Some) && {
            &&& retry_after matches Some(secs) ==> delay_ms == secs * 1000
            &&& retry_after is None && count <= 1 ==> 4_000 <= delay_ms <= 6_000
            &&& retry_after is None && count == 2 ==> 8_000 <= delay_ms <= 12_000
            &&& retry_after is None && count == 3 ==> 16_000 <= delay_ms <= 24_000
            &&& retry_after is None && count == 4 ==> 32_000 <= delay_ms <= 48_000
            &&& retry_after is None && count >= 5 ==> 48_000 <= delay_ms <= 72_000
        }),
        count > 10 ==> (action matches TransferAction::Finish { outcome, .. } && (outcome
            matches Err(e) && (e matches IaGetError::Network { detail: d, source } && source is None
            && d@ == kind + ": "@ + detail + " (maximum retries 10 exceeded)"@))),
{
    retry::backoff_stays_within_bounds(count as nat, seed);
}

/// A 206 that does not continue the local bytes is asked for again after the
/// wait that it asks for itself.
pub proof fn wrong_ranges_wait_as_asked(
    action: TransferAction,
    head: ResponseHead,
    local_size: u64,
    count: u32,
    moment: Moment,
    n: nat,
)
    requires
        is_answer_action(action, head, local_size, count, moment),
        head.status == 206,
        local_size > 0,
        range_continues(header::raw_view(head.content_range), local_size) != Some(true),
        holds_text(head.retry_after, text::decimal(n)),
        n <= u64::MAX,
        count <= 10,
    ensures
        action matches TransferAction::Wait { delay_ms, server_requested, .. } && server_requested
            && delay_ms == 1000 * (if n <= 900 {
            n
        } else {
            900
        }),
{
    lemma_holds_text(head.retry_after, text::decimal(n));
    let none = Seq::<char>::empty();
    retry::seconds_are_waited_as_written(n, none, none, moment.now_nanos as int);
    assert(none + text::decimal(n) + none =~= text::decimal(n));
}

/// Whatever the transient status, a `Retry-After` header that asks for a
/// wait in any form, a date too, is honored; one that asks for none is as
/// good as no header.
pub proof fn waits_of_any_form_are_honored(
    action: TransferAction,
    head: ResponseHead,
    local_size: u64,
    count: u32,
    moment: Moment,
    value: Seq<char>,
)
    requires
        is_answer_action(action, head, local_size, count, moment),
        is_transient(head.status),
        holds_text(head.retry_after, value),
        count <= 10,
    ensures
        action matches TransferAction::Wait { delay_ms, server_requested, .. } && (
        server_requested <==> retry::retry_after(value, moment.now_nanos as int) is Some) && (
        retry::retry_after(value, moment.now_nanos as int) matches Some(secs) ==> delay_ms == secs
            * 1000),
{
    lemma_transient(head.status);
    lemma_holds_text(head.retry_after, value);
}

/// A measured file is requested from its size on, and measuring costs no
/// retry. A body that is written keeps what its answer said of the next wait
/// and of the time, and costs none either.
pub proof fn measured_files_are_requested(
    retries: nat,
    size: u64,
    status: u16,
    continues: bool,
    retry_after: Option<u64>,
    last_modified: Option<u64>,
    expected_size: Option<u64>,
)
    ensures
        advanced(
            Course { phase: Phase::Ready, retries },
            Happening::Measured { size },
            expected_size,
        ) == (Course { phase: Phase::Requested { local_size: size }, retries }, Move::Send),
        ({
            let (next, what) = advanced(
                Course { phase: Phase::Requested { local_size: size }, retries },
                Happening::Answered { status, continues, retry_after, last_modified },
                expected_size,
            );
            what is Stream ==> next == (Course {
                phase: Phase::Streaming { retry_after, last_modified },
                retries,
            })
        }),
{
}

} // verus!
