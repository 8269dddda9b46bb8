//! Downloading one file until it verifies: the attempts, and what becomes of
//! the partial file between them.

use crate::display;
use crate::display::{print_complete_part_verification, print_redownload_from_scratch};
use crate::downloader::verify::PartVerification;
use crate::error::IaGetError;
use crate::styled::{Line, Style};
use crate::text;
use vstd::prelude::*;

verus! {

/// How often a file is downloaded that does not verify.
pub const MAX_DOWNLOAD_ATTEMPTS: u32 = 3;

// ---------------------------------------------------------------------------
// The attempts, as a machine
// ---------------------------------------------------------------------------

/// Where the attempts for a file stand.
#[derive(Clone, Copy, Debug, PartialEq, Eq, Structural)]
pub enum Stage {
    /// The directories are being made.
    Preparing,
    /// The partial file is being opened.
    Opening,
    /// The file is being transferred.
    Downloading,
    /// What was transferred is being verified; the time that the server
    /// gave.
    Verifying { server_mtime: Option<u64> },
    /// The resume offset was rejected: the partial file is being measured.
    Measuring,
    /// The partial file is complete, and is being verified in place.
    VerifyingInPlace,
    /// Nothing follows.
    Finished,
}

/// The attempts for a file, seen from contracts.
pub struct AttemptsView {
    pub stage: Stage,
    /// How many attempts were begun.
    pub attempt: u32,
    /// Whether the partial file is known to be no prefix of the file.
    pub discard_part: bool,
    /// Why the last attempt failed.
    pub reason: Seq<char>,
}

/// What the attempts do next, seen from contracts.
#[allow(inconsistent_fields)]
pub enum AttemptMove {
    Open { recreate: bool },
    Download { notice: Option<Seq<(Seq<char>, Style)>> },
    Verify,
    Measure,
    VerifyInPlace { notice: Seq<(Seq<char>, Style)> },
    Succeed { server_mtime: Option<u64> },
    Fail { reason: Seq<char>, discard_part: bool },
    Stop,
}

/// The next attempt, or the end where there were enough.
pub open spec fn next_attempt(view: AttemptsView) -> (AttemptsView, AttemptMove) {
    let attempt = (view.attempt + 1) as u32;
    if attempt > MAX_DOWNLOAD_ATTEMPTS {
        (
            AttemptsView { stage: Stage::Finished, ..view },
            AttemptMove::Fail { reason: view.reason, discard_part: view.discard_part },
        )
    } else {
        (
            AttemptsView { stage: Stage::Opening, attempt, ..view },
            AttemptMove::Open { recreate: attempt > 1 },
        )
    }
}

/// The end, with a failure.
pub open spec fn failed(view: AttemptsView, reason: Seq<char>, discard_part: bool) -> (
    AttemptsView,
    AttemptMove,
) {
    (
        AttemptsView { stage: Stage::Finished, ..view },
        AttemptMove::Fail { reason, discard_part },
    )
}

/// After the directories were made, or could not be.
pub open spec fn after_preparing(view: AttemptsView, made: Result<(), IaGetError>) -> (
    AttemptsView,
    AttemptMove,
) {
    match made {
        Ok(_) => next_attempt(view),
        Err(e) => failed(view, "could not create parent directories: "@ + e.text(), false),
    }
}

/// After the partial file was opened, or could not be. One that was made
/// anew is no longer known to be wrong.
pub open spec fn after_opening(view: AttemptsView, opened: Result<(), IaGetError>) -> (
    AttemptsView,
    AttemptMove,
) {
    match opened {
        Ok(_) => (
            AttemptsView {
                stage: Stage::Downloading,
                discard_part: view.attempt <= 1 && view.discard_part,
                ..view
            },
            AttemptMove::Download {
                notice: if view.attempt > 1 {
                    Some(display::redownload_shown(view.attempt, MAX_DOWNLOAD_ATTEMPTS))
                } else {
                    None
                },
            },
        ),
        Err(e) => failed(
            view,
            "could not prepare .part file: "@ + e.text(),
            view.attempt > 1 && view.discard_part,
        ),
    }
}

/// After the transfer. A rejected offset is looked into; any other failure
/// is final, and leaves a partial file that can be resumed.
pub open spec fn after_downloading(
    view: AttemptsView,
    outcome: Result<Option<u64>, IaGetError>,
) -> (AttemptsView, AttemptMove) {
    match outcome {
        Ok(server_mtime) => (
            AttemptsView { stage: Stage::Verifying { server_mtime }, ..view },
            AttemptMove::Verify,
        ),
        Err(IaGetError::Interrupted) => (
            AttemptsView { stage: Stage::Finished, ..view },
            AttemptMove::Stop,
        ),
        Err(IaGetError::RangeNotSatisfiable) => (
            AttemptsView { stage: Stage::Measuring, ..view },
            AttemptMove::Measure,
        ),
        Err(e) => failed(view, e.text(), view.discard_part),
    }
}

/// After a rejected offset: the partial file is no prefix of the file, so
/// the next attempt starts over, and nothing of it is kept.
pub open spec fn start_over(view: AttemptsView) -> (AttemptsView, AttemptMove) {
    next_attempt(
        AttemptsView {
            reason: IaGetError::RangeNotSatisfiable.text(),
            discard_part: true,
            ..view
        },
    )
}

/// After the partial file was measured: one of exactly the expected size is
/// verified in place, for a server rejects the offset at the end of a
/// complete file too.
pub open spec fn after_measuring(
    view: AttemptsView,
    part_len: Option<u64>,
    expected_size: Option<u64>,
) -> (AttemptsView, AttemptMove) {
    if expected_size is Some && part_len == expected_size {
        (
            AttemptsView { stage: Stage::VerifyingInPlace, ..view },
            AttemptMove::VerifyInPlace { notice: display::complete_part_shown() },
        )
    } else {
        start_over(view)
    }
}

/// After what was transferred, or the complete partial file, was verified.
pub open spec fn after_verifying(
    view: AttemptsView,
    outcome: Result<PartVerification, IaGetError>,
) -> (AttemptsView, AttemptMove) {
    let finished = AttemptsView { stage: Stage::Finished, ..view };
    match outcome {
        Err(_) => (finished, AttemptMove::Stop),
        Ok(PartVerification::Valid) => (
            finished,
            AttemptMove::Succeed {
                server_mtime: match view.stage {
                    Stage::Verifying { server_mtime } => server_mtime,
                    _ => None,
                },
            },
        ),
        Ok(PartVerification::Mismatch) => if view.stage is VerifyingInPlace {
            start_over(view)
        } else {
            next_attempt(
                AttemptsView {
                    reason: "file failed verification after "@ + text::decimal(
                        view.attempt as nat,
                    )
                        + " attempt(s)"@,
                    ..view
                },
            )
        },
        Ok(PartVerification::Unreadable(reason)) => failed(
            view,
            (if view.stage is VerifyingInPlace {
                "could not verify complete .part file: "@
            } else {
                "could not verify downloaded file: "@
            }) + reason@,
            false,
        ),
    }
}

// ---------------------------------------------------------------------------
// The attempts
// ---------------------------------------------------------------------------

/// The attempts for a file.
#[derive(Debug)]
pub struct Attempts {
    pub stage: Stage,
    pub attempt: u32,
    pub discard_part: bool,
    pub last_reason: String,
    pub expected_size: Option<u64>,
}

/// What came of the attempts for a file.
#[derive(Debug)]
pub enum DownloadOutcome {
    /// The file is there and verified, with the time that the server gave.
    Verified { server_mtime: Option<u64> },
    /// The file could not be had: why, and whether its partial file must not
    /// be kept.
    Failed { reason: String, discard_part: bool },
}

/// What the attempts do next.
#[derive(Debug)]
#[allow(inconsistent_fields)]
pub enum AttemptAction {
    /// Open the partial file, behind what is in it; where it is to be made
    /// anew, remove it before.
    Open { recreate: bool },
    /// Transfer the file, after the line, where there is one, was shown.
    Download { notice: Option<Line> },
    /// Verify the partial file.
    Verify,
    /// Measure the partial file.
    Measure,
    /// Verify the partial file, which is complete, after the line was shown.
    VerifyInPlace { notice: Line },
    /// The attempts are over.
    Finish(DownloadOutcome),
    /// The user asked to stop.
    Stop,
}

impl View for Attempts {
    type V = AttemptsView;

    open spec fn view(&self) -> AttemptsView {
        AttemptsView {
            stage: self.stage,
            attempt: self.attempt,
            discard_part: self.discard_part,
            reason: self.last_reason@,
        }
    }
}

impl View for AttemptAction {
    type V = AttemptMove;

    open spec fn view(&self) -> AttemptMove {
        match *self {
            AttemptAction::Open { recreate } => AttemptMove::Open { recreate },
            AttemptAction::Download { notice } => AttemptMove::Download {
                notice: match notice {
                    Some(line) => Some(line@),
                    None => None,
                },
            },
            AttemptAction::Verify => AttemptMove::Verify,
            AttemptAction::Measure => AttemptMove::Measure,
            AttemptAction::VerifyInPlace { notice } => AttemptMove::VerifyInPlace {
                notice: notice@,
            },
            AttemptAction::Finish(DownloadOutcome::Verified { server_mtime }) =>
            AttemptMove::Succeed { server_mtime },
            AttemptAction::Finish(DownloadOutcome::Failed { reason, discard_part }) =>
            AttemptMove::Fail { reason: reason@, discard_part },
            AttemptAction::Stop => AttemptMove::Stop,
        }
    }
}

impl Attempts {
    /// Whether the attempts are where they can be.
    pub open spec fn is_valid(&self) -> bool {
        self.attempt <= MAX_DOWNLOAD_ATTEMPTS
    }

    /// No attempt was begun.
    pub fn new(expected_size: Option<u64>) -> (r: Self)
        ensures
            r.is_valid(),
            r.expected_size == expected_size,
            r@ == (AttemptsView {
                stage: Stage::Preparing,
                attempt: 0,
                discard_part: false,
                reason: Seq::empty(),
            }),
    {
        Attempts {
            stage: Stage::Preparing,
            attempt: 0,
            discard_part: false,
            last_reason: String::new(),
            expected_size,
        }
    }

    fn fail(&mut self, reason: String, discard_part: bool) -> (r: AttemptAction)
        requires
            old(self).is_valid(),
        ensures
            final(self).is_valid(),
            final(self).expected_size == old(self).expected_size,
            (final(self)@, r@) == failed(old(self)@, reason@, discard_part),
    {
        self.stage = Stage::Finished;
        AttemptAction::Finish(DownloadOutcome::Failed { reason, discard_part })
    }

    fn begin_attempt(&mut self) -> (r: AttemptAction)
        requires
            old(self).is_valid(),
        ensures
            final(self).is_valid(),
            final(self).expected_size == old(self).expected_size,
            (final(self)@, r@) == next_attempt(old(self)@),
    {
        if self.attempt + 1 > MAX_DOWNLOAD_ATTEMPTS {
            let reason = self.last_reason.clone();
            let discard_part = self.discard_part;
            return self.fail(reason, discard_part);
        }
        self.attempt = self.attempt + 1;
        self.stage = Stage::Opening;
        AttemptAction::Open { recreate: self.attempt > 1 }
    }

    /// Takes whether the directories of the file could be made.
    pub fn prepared(&mut self, made: &Result<(), IaGetError>) -> (r: AttemptAction)
        requires
            old(self).is_valid(),
        ensures
            final(self).is_valid(),
            final(self).expected_size == old(self).expected_size,
            (final(self)@, r@) == after_preparing(old(self)@, *made),
    {
        match made {
            Ok(_) => self.begin_attempt(),
            Err(e) => self.fail(
                text::concat("could not create parent directories: ", &e.to_text()),
                false,
            ),
        }
    }

    /// Takes whether the partial file could be opened.
    pub fn opened(&mut self, opened: &Result<(), IaGetError>) -> (r: AttemptAction)
        requires
            old(self).is_valid(),
        ensures
            final(self).is_valid(),
            final(self).expected_size == old(self).expected_size,
            (final(self)@, r@) == after_opening(old(self)@, *opened),
    {
        match opened {
            Ok(_) => {
                self.stage = Stage::Downloading;
                let mut notice: Option<Line> = None;
                if self.attempt > 1 {
                    self.discard_part = false;
                    notice = Some(
                        print_redownload_from_scratch(self.attempt, MAX_DOWNLOAD_ATTEMPTS),
                    );
                }
                AttemptAction::Download { notice }
            },
            Err(e) => {
                let discard_part = self.attempt > 1 && self.discard_part;
                self.fail(
                    text::concat("could not prepare .part file: ", &e.to_text()),
                    discard_part,
                )
            },
        }
    }

    /// Takes what came of the transfer.
    pub fn downloaded(&mut self, outcome: &Result<Option<u64>, IaGetError>) -> (r: AttemptAction)
        requires
            old(self).is_valid(),
        ensures
            final(self).is_valid(),
            final(self).expected_size == old(self).expected_size,
            (final(self)@, r@) == after_downloading(old(self)@, *outcome),
    {
        match outcome {
            Ok(server_mtime) => {
                self.stage = Stage::Verifying { server_mtime: *server_mtime };
                AttemptAction::Verify
            },
            Err(IaGetError::Interrupted) => {
                self.stage = Stage::Finished;
                AttemptAction::Stop
            },
            Err(IaGetError::RangeNotSatisfiable) => {
                self.stage = Stage::Measuring;
                AttemptAction::Measure
            },
            Err(e) => {
                let discard_part = self.discard_part;
                self.fail(e.to_text(), discard_part)
            },
        }
    }

    fn restart(&mut self) -> (r: AttemptAction)
        requires
            old(self).is_valid(),
        ensures
            final(self).is_valid(),
            final(self).expected_size == old(self).expected_size,
            (final(self)@, r@) == start_over(old(self)@),
    {
        self.last_reason = IaGetError::RangeNotSatisfiable.to_text();
        self.discard_part = true;
        self.begin_attempt()
    }

    /// Takes the size of the partial file whose offset was rejected, where it
    /// could be read.
    pub fn measured(&mut self, part_len: Option<u64>) -> (r: AttemptAction)
        requires
            old(self).is_valid(),
        ensures
            final(self).is_valid(),
            final(self).expected_size == old(self).expected_size,
            (final(self)@, r@) == after_measuring(
                old(self)@,
                part_len,
                old(self).expected_size,
            ),
    {
        let complete = match (self.expected_size, part_len) {
            (Some(expected), Some(len)) => expected == len,
            _ => false,
        };
        if complete {
            self.stage = Stage::VerifyingInPlace;
            return AttemptAction::VerifyInPlace { notice: print_complete_part_verification() };
        }
        self.restart()
    }

    /// Takes what came of verifying the partial file.
    pub fn verified(&mut self, outcome: &Result<PartVerification, IaGetError>) -> (r: AttemptAction)
        requires
            old(self).is_valid(),
            old(self).stage is Verifying || old(self).stage is VerifyingInPlace,
        ensures
            final(self).is_valid(),
            final(self).expected_size == old(self).expected_size,
            (final(self)@, r@) == after_verifying(old(self)@, *outcome),
    {
        let in_place = match self.stage {
            Stage::VerifyingInPlace => true,
            _ => false,
        };
        match outcome {
            Err(_) => {
                self.stage = Stage::Finished;
                AttemptAction::Stop
            },
            Ok(PartVerification::Valid) => {
                let server_mtime = match self.stage {
                    Stage::Verifying { server_mtime } => server_mtime,
                    _ => None,
                };
                self.stage = Stage::Finished;
                AttemptAction::Finish(DownloadOutcome::Verified { server_mtime })
            },
            Ok(PartVerification::Mismatch) => {
                if in_place {
                    return self.restart();
                }
                let mut reason = "file failed verification after ".to_owned();
                text::push_decimal(&mut reason, self.attempt as u64);
                reason.append(" attempt(s)");
                self.last_reason = reason;
                self.begin_attempt()
            },
            Ok(PartVerification::Unreadable(reason)) => {
                let what = if in_place {
                    "could not verify complete .part file: ".to_owned()
                } else {
                    "could not verify downloaded file: ".to_owned()
                };
                self.fail(text::concat(&what, reason), false)
            },
        }
    }
}

// ---------------------------------------------------------------------------
// What the attempts promise
// ---------------------------------------------------------------------------

/// What happens to the attempts for a file.
pub enum AttemptEvent {
    Prepared(Result<(), IaGetError>),
    Opened(Result<(), IaGetError>),
    Downloaded(Result<Option<u64>, IaGetError>),
    Measured(Option<u64>),
    Verified(Result<PartVerification, IaGetError>),
}

/// Whether an event can follow in a stage.
pub open spec fn can_occur(stage: Stage, event: AttemptEvent) -> bool {
    match event {
        AttemptEvent::Prepared(_) => stage is Preparing,
        AttemptEvent::Opened(_) => stage is Opening,
        AttemptEvent::Downloaded(_) => stage is Downloading,
        AttemptEvent::Measured(_) => stage is Measuring,
        AttemptEvent::Verified(_) => stage is Verifying || stage is VerifyingInPlace,
    }
}

/// The attempts after an event, and what they do.
pub open spec fn after(view: AttemptsView, event: AttemptEvent, expected_size: Option<u64>) -> (
    AttemptsView,
    AttemptMove,
) {
    match event {
        AttemptEvent::Prepared(made) => after_preparing(view, made),
        AttemptEvent::Opened(opened) => after_opening(view, opened),
        AttemptEvent::Downloaded(outcome) => after_downloading(view, outcome),
        AttemptEvent::Measured(part_len) => after_measuring(view, part_len, expected_size),
        AttemptEvent::Verified(outcome) => after_verifying(view, outcome),
    }
}

/// Whether a list of events can occur, one after the other.
pub open spec fn can_all_occur(
    view: AttemptsView,
    events: Seq<AttemptEvent>,
    expected_size: Option<u64>,
) -> bool
    decreases events.len(),
{
    events.len() > 0 ==> can_occur(view.stage, events.first()) && can_all_occur(
        after(view, events.first(), expected_size).0,
        events.skip(1),
        expected_size,
    )
}

/// How often the file is transferred while a list of events occurs.
pub open spec fn downloads(
    view: AttemptsView,
    events: Seq<AttemptEvent>,
    expected_size: Option<u64>,
) -> nat
    decreases events.len(),
{
    if events.len() == 0 {
        0
    } else {
        let (next, what) = after(view, events.first(), expected_size);
        downloads(next, events.skip(1), expected_size) + if what is Download {
            1nat
        } else {
            0
        }
    }
}

spec fn downloads_left(view: AttemptsView) -> nat {
    (if view.attempt <= MAX_DOWNLOAD_ATTEMPTS {
        (MAX_DOWNLOAD_ATTEMPTS - view.attempt) as nat
    } else {
        0
    }) + if view.stage is Opening {
        1nat
    } else {
        0
    }
}

proof fn lemma_downloads_are_bounded(
    view: AttemptsView,
    events: Seq<AttemptEvent>,
    expected_size: Option<u64>,
)
    requires
        can_all_occur(view, events, expected_size),
        view.attempt <= MAX_DOWNLOAD_ATTEMPTS,
    ensures
        downloads(view, events, expected_size) <= downloads_left(view),
    decreases events.len(),
{
    if events.len() > 0 {
        let (next, what) = after(view, events.first(), expected_size);
        lemma_downloads_are_bounded(next, events.skip(1), expected_size);
    }
}

/// Whatever happens, a file is transferred at most three times.
pub proof fn attempts_end(events: Seq<AttemptEvent>, expected_size: Option<u64>)
    requires
        can_all_occur(
            AttemptsView {
                stage: Stage::Preparing,
                attempt: 0,
                discard_part: false,
                reason: Seq::empty(),
            },
            events,
            expected_size,
        ),
    ensures
        downloads(
            AttemptsView {
                stage: Stage::Preparing,
                attempt: 0,
                discard_part: false,
                reason: Seq::empty(),
            },
            events,
            expected_size,
        ) <= MAX_DOWNLOAD_ATTEMPTS,
{
    lemma_downloads_are_bounded(
        AttemptsView {
            stage: Stage::Preparing,
            attempt: 0,
            discard_part: false,
            reason: Seq::empty(),
        },
        events,
        expected_size,
    );
}

/// A file counts as downloaded only where it was just found right: the
/// attempts succeed with nothing but a valid verification.
pub proof fn success_follows_verification(
    view: AttemptsView,
    event: AttemptEvent,
    expected_size: Option<u64>,
)
    requires
        can_occur(view.stage, event),
        after(view, event, expected_size).1 is Succeed,
    ensures
        event matches AttemptEvent::Verified(Ok(PartVerification::Valid)),
{
}

/// A partial file that is known to be no prefix is never resumed: the
/// attempt after a rejected offset makes it anew.
pub proof fn rejected_parts_are_not_resumed(
    view: AttemptsView,
    event: AttemptEvent,
    expected_size: Option<u64>,
)
    requires
        can_occur(view.stage, event),
        1 <= view.attempt <= MAX_DOWNLOAD_ATTEMPTS,
        view.stage is Measuring || view.stage is VerifyingInPlace,
        after(view, event, expected_size).1 is Open,
    ensures
        after(view, event, expected_size).1 == (AttemptMove::Open { recreate: true }),
        after(view, event, expected_size).0.discard_part,
{
}

/// The first attempt goes on from a partial file; each later one makes it
/// anew. What could not be prepared is a failure that says why, and costs a
/// partial file only where that was known to be wrong.
pub proof fn attempts_begin_with_the_part(view: AttemptsView, made: Result<(), IaGetError>)
    requires
        view.attempt <= 3,
    ensures
        made is Ok && view.attempt == 0 ==> after_preparing(view, made).1 == (AttemptMove::Open {
            recreate: false,
        }) && after_preparing(view, made).0.attempt == 1 && after_preparing(view, made).0.stage
            == Stage::Opening,
        made matches Err(e) ==> (after_preparing(view, made).1 matches AttemptMove::Fail {
            reason,
            discard_part,
        } && !discard_part && reason.skip(reason.len() - e.text().len()) == e.text()
            && e.text().len() <= reason.len()),
        made is Ok ==> after_opening(view, made).1 is Download && after_opening(view, made).0.stage
            == Stage::Downloading && after_opening(view, made).0.attempt == view.attempt,
        made is Ok && view.attempt == 1 ==> after_opening(view, made).1 == (AttemptMove::Download {
            notice: None,
        }) && after_opening(view, made).0.discard_part == view.discard_part,
        made is Ok && view.attempt > 1 ==> !after_opening(view, made).0.discard_part && (
        after_opening(view, made).1->Download_notice) is Some,
        made matches Err(e) ==> (after_opening(view, made).1 matches AttemptMove::Fail {
            reason,
            discard_part,
        } && (discard_part <==> view.attempt > 1 && view.discard_part) && reason.skip(
            reason.len() - e.text().len(),
        ) == e.text() && e.text().len() <= reason.len()),
{
    if let Err(e) = made {
        let first = "could not create parent directories: "@;
        let second = "could not prepare .part file: "@;
        assert((first + e.text()).skip(first.len() as int) =~= e.text());
        assert((second + e.text()).skip(second.len() as int) =~= e.text());
    }
}

/// A finished transfer is verified; a right file succeeds with the time that
/// the server gave in that transfer. The user's request stops the attempts
/// wherever it comes, and any failure but a rejected offset ends them with
/// its own words and the partial file as it was.
pub proof fn transfers_are_verified(
    view: AttemptsView,
    server_mtime: Option<u64>,
    e: IaGetError,
)
    ensures
        after_downloading(view, Ok(server_mtime)).1 is Verify,
        after_verifying(
            after_downloading(view, Ok(server_mtime)).0,
            Ok(PartVerification::Valid),
        ).1 == (AttemptMove::Succeed { server_mtime }),
        after_downloading(view, Ok(server_mtime)).0.attempt == view.attempt,
        after_downloading(view, Err(IaGetError::Interrupted)).1 is Stop,
        after_verifying(view, Err(e)).1 is Stop,
        after_downloading(view, Err(IaGetError::RangeNotSatisfiable)).1 is Measure,
        after_downloading(view, Err(IaGetError::RangeNotSatisfiable)).0.stage is Measuring,
        after_downloading(view, Err(IaGetError::RangeNotSatisfiable)).0.attempt == view.attempt,
        !(e is Interrupted) && !(e is RangeNotSatisfiable) ==> after_downloading(view, Err(e)).1
            == (AttemptMove::Fail { reason: e.text(), discard_part: view.discard_part }),
{
}

/// A partial file whose offset was rejected is verified where it has exactly
/// the expected size; in any other case, and where it turns out wrong, the
/// file is transferred anew, up to the third time. What is left then is
/// never kept.
pub proof fn rejected_offsets_are_looked_into(
    view: AttemptsView,
    part_len: Option<u64>,
    expected_size: Option<u64>,
)
    requires
        1 <= view.attempt <= 3,
        view.stage is Measuring || view.stage is VerifyingInPlace,
    ensures
        ({
            let measured = after_measuring(view, part_len, expected_size);
            let found_wrong = after_verifying(
                AttemptsView { stage: Stage::VerifyingInPlace, ..view },
                Ok(PartVerification::Mismatch),
            );
            &&& measured.1 is VerifyInPlace <==> exists|size: u64|
                part_len == Some(size) && expected_size == Some(size)
            &&& measured.1 is VerifyInPlace ==> measured.0.stage is VerifyingInPlace
                && measured.0.attempt == view.attempt && after_verifying(
                measured.0,
                Ok(PartVerification::Valid),
            ).1 == (AttemptMove::Succeed { server_mtime: None })
            &&& measured.1 is VerifyInPlace || view.attempt == 3 || (measured.1
                == (AttemptMove::Open { recreate: true }) && measured.0.attempt == view.attempt
                + 1)
            &&& measured.1 is VerifyInPlace || view.attempt < 3 || (measured.1
                == (AttemptMove::Fail {
                reason: IaGetError::RangeNotSatisfiable.text(),
                discard_part: true,
            }))
            &&& view.attempt < 3 ==> found_wrong.1 == (AttemptMove::Open { recreate: true })
                && found_wrong.0.attempt == view.attempt + 1
            &&& view.attempt == 3 ==> found_wrong.1 == (AttemptMove::Fail {
                reason: IaGetError::RangeNotSatisfiable.text(),
                discard_part: true,
            })
        }),
{
    if expected_size is Some && part_len == expected_size {
        let size = expected_size->0;
        assert(part_len == Some(size) && expected_size == Some(size));
    }
}

/// A transferred file that turns out wrong is transferred again, from
/// scratch, up to the third time; the failure then says how often it was
/// tried. One that cannot be read is a failure at once, with what the system
/// says, and its partial file stays.
pub proof fn wrong_files_are_tried_three_times(
    view: AttemptsView,
    server_mtime: Option<u64>,
    said: String,
)
    requires
        view.stage == (Stage::Verifying { server_mtime }),
        1 <= view.attempt <= 3,
    ensures
        ({
            let (next, what) = after_verifying(view, Ok(PartVerification::Mismatch));
            &&& view.attempt < 3 ==> what == (AttemptMove::Open { recreate: true })
                && next.attempt == view.attempt + 1 && next.stage is Opening
                && next.discard_part == view.discard_part
            &&& view.attempt == 3 ==> (what matches AttemptMove::Fail { reason, discard_part }
                && discard_part == view.discard_part && reason
                == "file failed verification after 3 attempt(s)"@)
        }),
        after_verifying(view, Ok(PartVerification::Unreadable(said))).1 matches AttemptMove::Fail {
            reason,
            discard_part,
        } && !discard_part && said@.len() <= reason.len() && reason.skip(
            reason.len() - said@.len(),
        ) == said@,
{
    let what = "could not verify downloaded file: "@;
    assert((what + said@).skip(what.len() as int) =~= said@);
    if view.attempt == 3 {
        reveal_strlit("file failed verification after 3 attempt(s)");
        reveal_strlit("file failed verification after ");
        reveal_strlit(" attempt(s)");
        assert(text::decimal(3) =~= seq!['3']);
        assert("file failed verification after "@ + text::decimal(3) + " attempt(s)"@
            =~= "file failed verification after 3 attempt(s)"@);
    }
}

} // verus!
