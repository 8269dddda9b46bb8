//! One file of a batch: keeping a right copy, replacing a wrong one, and
//! installing what was downloaded.

use crate::display;
use crate::display::print_stale_file_redownload;
use crate::downloader::attempts::DownloadOutcome;
use crate::downloader::mtime;
use crate::downloader::mtime::{mtime_from_xml, mtime_to_install};
use crate::downloader::verify;
use crate::downloader::verify::{print_verified_hash, ExistingFileStatus};
use crate::error::IaGetError;
use crate::styled::{Line, Style};
use crate::text;
use vstd::prelude::*;

verus! {

/// What came of a file.
#[derive(Debug)]
pub enum FileOutcome {
    /// The file is there and right.
    Succeeded,
    /// The file could not be had: why.
    Failed(String),
}

/// What to do next for a file.
#[derive(Debug)]
pub enum FileAction {
    /// Look at the copy that is there.
    CheckExisting,
    /// Keep the copy that is there: remove its partial file, set its time,
    /// show the line.
    Keep { mtime: Option<u64>, notice: Line },
    /// Show the line and remove the copy that is there.
    RemoveStale { notice: Line },
    /// Download the file; where it is left over, its partial file is removed
    /// before.
    Download { remove_part: bool },
    /// Give the partial file its final name and time.
    Install { mtime: Option<u64> },
    /// Nothing more, but that the partial file may have to go.
    Finish { outcome: FileOutcome, remove_part: bool },
}

/// What to do next for a file, seen from contracts.
pub enum FileMove {
    CheckExisting,
    Keep { mtime: Option<u64>, notice: Seq<(Seq<char>, Style)> },
    RemoveStale { notice: Seq<(Seq<char>, Style)> },
    Download { remove_part: bool },
    Install { mtime: Option<u64> },
    Succeed,
    Fail { reason: Seq<char>, remove_part: bool },
    /// The user asked to stop.
    Stop,
}

impl FileAction {
    /// What the action is.
    pub open spec fn is(self, m: FileMove) -> bool {
        match self {
            FileAction::CheckExisting => m is CheckExisting,
            FileAction::Keep { mtime, notice } => m == FileMove::Keep { mtime, notice: notice@ },
            FileAction::RemoveStale { notice } => m == FileMove::RemoveStale { notice: notice@ },
            FileAction::Download { remove_part } => m == FileMove::Download { remove_part },
            FileAction::Install { mtime } => m == FileMove::Install { mtime },
            FileAction::Finish { outcome: FileOutcome::Succeeded, remove_part } => m is Succeed
                && !remove_part,
            FileAction::Finish { outcome: FileOutcome::Failed(reason), remove_part } => m
                == FileMove::Fail { reason: reason@, remove_part },
        }
    }
}

/// Where a file is downloaded to before it is verified.
pub fn part_path(file_path: &str) -> (r: String)
    ensures
        r@ == file_path@ + ".part"@,
{
    text::concat(file_path, ".part")
}

/// After the directories of the file were made: the copy that is there is
/// looked at, unless they could not be made safely.
pub open spec fn after_parents(made: Result<(), IaGetError>) -> FileMove {
    match made {
        Ok(_) => FileMove::CheckExisting,
        Err(e) => FileMove::Fail {
            reason: "could not prepare parent directories: "@ + e.text(),
            remove_part: false,
        },
    }
}

/// What becomes of the copy that is there: a right one is kept, with the
/// time that the metadata gives; a wrong one is removed, so that the download
/// starts over; one that cannot be read is neither removed nor downloaded
/// again.
pub open spec fn existing_handling(
    status: ExistingFileStatus,
    expected_mtime: Option<u64>,
) -> FileMove {
    match status {
        ExistingFileStatus::Verified { md5 } => FileMove::Keep {
            mtime: mtime::representable(expected_mtime),
            notice: verify::verified_line(text::maybe(md5)),
        },
        ExistingFileStatus::Invalid => FileMove::RemoveStale {
            notice: display::stale_file_shown(),
        },
        ExistingFileStatus::Unreadable(reason) => FileMove::Fail {
            reason: reason@,
            remove_part: false,
        },
        ExistingFileStatus::Missing => FileMove::Download { remove_part: false },
    }
}

/// After the wrong copy was removed, or could not be: its partial file goes
/// either way.
pub open spec fn after_stale_removal(removed: Result<(), IaGetError>) -> FileMove {
    match removed {
        Ok(_) => FileMove::Download { remove_part: true },
        Err(e) => FileMove::Fail {
            reason: "stale file could not be removed: "@ + e.text(),
            remove_part: true,
        },
    }
}

/// After the attempts: what was verified is installed; what failed may stay
/// for the next run, unless it is known to be no prefix.
pub open spec fn after_attempts(
    outcome: DownloadOutcome,
    expected_mtime: Option<u64>,
) -> FileMove {
    match outcome {
        DownloadOutcome::Verified { server_mtime } => FileMove::Install {
            mtime: mtime::installed_mtime(server_mtime, expected_mtime),
        },
        DownloadOutcome::Failed { reason, discard_part } => FileMove::Fail {
            reason: reason@,
            remove_part: discard_part,
        },
    }
}

/// After the file was installed, or could not be: the verified partial file
/// stays for the next run.
pub open spec fn after_install(installed: Result<(), IaGetError>) -> FileMove {
    match installed {
        Ok(_) => FileMove::Succeed,
        Err(e) => FileMove::Fail {
            reason: "could not install file: "@ + e.text(),
            remove_part: false,
        },
    }
}

// ---------------------------------------------------------------------------
// One file, as a machine
// ---------------------------------------------------------------------------

/// Where a file stands: what is being done for it.
#[derive(Clone, Copy, Debug, PartialEq, Eq, Structural)]
pub enum FileStage {
    /// Its directories are being made.
    Preparing,
    /// The copy that is there is being looked at.
    Checking,
    /// The copy that is there is being kept.
    Keeping,
    /// The copy that is there is being removed.
    Removing,
    /// It is being downloaded.
    Downloading,
    /// What was downloaded is being installed.
    Installing,
    /// Nothing follows.
    Finished,
}

/// What happens to a file.
pub enum FileEvent {
    /// Its directories were made, or could not be.
    Parents { made: Result<(), IaGetError> },
    /// The copy that is there was looked at, unless the user asked to stop.
    Existing { status: Result<ExistingFileStatus, IaGetError> },
    /// The copy that is there was kept.
    Kept,
    /// The copy that is there was removed, or could not be.
    StaleRemoved { removed: Result<(), IaGetError> },
    /// The attempts to download it are over.
    AttemptsOver { outcome: DownloadOutcome },
    /// What was downloaded was installed, or could not be.
    Installed { installed: Result<(), IaGetError> },
}

/// Whether something can happen in a stage: each is what the stage waits
/// for.
pub open spec fn can_occur(stage: FileStage, event: FileEvent) -> bool {
    match event {
        FileEvent::Parents { .. } => stage is Preparing,
        FileEvent::Existing { .. } => stage is Checking,
        FileEvent::Kept => stage is Keeping,
        FileEvent::StaleRemoved { .. } => stage is Removing,
        FileEvent::AttemptsOver { .. } => stage is Downloading,
        FileEvent::Installed { .. } => stage is Installing,
    }
}

/// What to do next for a file after something happened.
pub open spec fn after_event(event: FileEvent, expected_mtime: Option<u64>) -> FileMove {
    match event {
        FileEvent::Parents { made } => after_parents(made),
        FileEvent::Existing { status: Ok(status) } => existing_handling(status, expected_mtime),
        FileEvent::Existing { status: Err(_) } => FileMove::Stop,
        FileEvent::Kept => FileMove::Succeed,
        FileEvent::StaleRemoved { removed } => after_stale_removal(removed),
        FileEvent::AttemptsOver { outcome } => after_attempts(outcome, expected_mtime),
        FileEvent::Installed { installed } => after_install(installed),
    }
}

/// Where a file stands while what is next is being done for it.
pub open spec fn stage_for(what: FileMove) -> FileStage {
    match what {
        FileMove::CheckExisting => FileStage::Checking,
        FileMove::Keep { .. } => FileStage::Keeping,
        FileMove::RemoveStale { .. } => FileStage::Removing,
        FileMove::Download { .. } => FileStage::Downloading,
        FileMove::Install { .. } => FileStage::Installing,
        FileMove::Succeed => FileStage::Finished,
        FileMove::Fail { .. } => FileStage::Finished,
        FileMove::Stop => FileStage::Finished,
    }
}

/// Where a file stands after the first `n` of the events.
pub open spec fn stage_after(
    events: Seq<FileEvent>,
    n: int,
    expected_mtime: Option<u64>,
) -> FileStage {
    if n <= 0 {
        FileStage::Preparing
    } else {
        stage_for(after_event(events[n - 1], expected_mtime))
    }
}

/// Whether events can happen to a file, one after the other.
pub open spec fn can_all_occur(events: Seq<FileEvent>, expected_mtime: Option<u64>) -> bool {
    forall|i: int|
        0 <= i < events.len() ==> can_occur(
            stage_after(events, i, expected_mtime),
            #[trigger] events[i],
        )
}

/// How far a file has come.
spec fn rank(stage: FileStage) -> int {
    match stage {
        FileStage::Preparing => 0,
        FileStage::Checking => 1,
        FileStage::Keeping => 2,
        FileStage::Removing => 2,
        FileStage::Downloading => 3,
        FileStage::Installing => 4,
        FileStage::Finished => 5,
    }
}

proof fn lemma_events_advance(events: Seq<FileEvent>, n: int, expected_mtime: Option<u64>)
    requires
        can_all_occur(events, expected_mtime),
        0 <= n <= events.len(),
    ensures
        rank(stage_after(events, n, expected_mtime)) >= n,
    decreases n,
{
    if n > 0 {
        lemma_events_advance(events, n - 1, expected_mtime);
        let event = events[n - 1];
        assert(can_occur(stage_after(events, n - 1, expected_mtime), event));
    }
}

proof fn lemma_not_over(stage: FileStage, event: FileEvent)
    requires
        can_occur(stage, event),
    ensures
        !(stage is Finished),
        rank(stage) <= 4,
{
}

/// A file is done for after five events at most, and nothing follows its
/// end.
pub proof fn files_end(events: Seq<FileEvent>, expected_mtime: Option<u64>)
    requires
        can_all_occur(events, expected_mtime),
    ensures
        events.len() <= 5,
        forall|i: int|
            0 <= i < events.len() - 1 ==> !(stage_for(
                after_event(#[trigger] events[i], expected_mtime),
            ) is Finished),
{
    if events.len() > 0 {
        let stage = stage_after(events, events.len() - 1, expected_mtime);
        lemma_events_advance(events, events.len() - 1, expected_mtime);
        lemma_not_over(stage, events[events.len() - 1]);
    }
    assert forall|i: int| 0 <= i < events.len() - 1 implies !(stage_for(
        after_event(#[trigger] events[i], expected_mtime),
    ) is Finished) by {
        lemma_not_over(stage_after(events, i + 1, expected_mtime), events[i + 1]);
    }
}

proof fn lemma_successes(event: FileEvent, expected_mtime: Option<u64>)
    requires
        after_event(event, expected_mtime) is Succeed,
    ensures
        event is Kept || (event matches FileEvent::Installed { installed } && installed is Ok),
{
}

proof fn lemma_stage_causes(event: FileEvent, expected_mtime: Option<u64>)
    ensures
        stage_for(after_event(event, expected_mtime)) is Keeping ==> (event
            matches FileEvent::Existing { status } && (status matches Ok(found) && found
            is Verified)),
        stage_for(after_event(event, expected_mtime)) is Installing ==> (event
            matches FileEvent::AttemptsOver { outcome } && outcome is Verified),
{
}

/// A file succeeds in two ways alone: the copy that is there was found right
/// and kept, or what was downloaded was verified and then installed.
#[verifier::rlimit(40)]
pub proof fn success_has_a_cause(events: Seq<FileEvent>, i: int, expected_mtime: Option<u64>)
    requires
        can_all_occur(events, expected_mtime),
        0 <= i < events.len(),
        after_event(events[i], expected_mtime) is Succeed,
    ensures
        i > 0,
        i == events.len() - 1,
        (events[i] is Kept && (events[i - 1] matches FileEvent::Existing { status } && (status
            matches Ok(found) && found is Verified))) || ((events[i]
            matches FileEvent::Installed { installed } && installed is Ok) && (events[i - 1]
            matches FileEvent::AttemptsOver { outcome } && outcome is Verified)),
{
    let event = events[i];
    assert(can_occur(stage_after(events, i, expected_mtime), event));
    lemma_successes(event, expected_mtime);
    assert(i > 0);
    lemma_stage_causes(events[i - 1], expected_mtime);
    if i < events.len() - 1 {
        assert(can_occur(stage_after(events, i + 1, expected_mtime), events[i + 1]));
    }
}

// ---------------------------------------------------------------------------
// One file
// ---------------------------------------------------------------------------

/// One file of a batch on its way.
#[derive(Debug)]
pub struct FileRun {
    pub stage: FileStage,
    pub expected_mtime: Option<u64>,
}

impl FileRun {
    /// Whether the file went on by an event, and the action is what follows.
    pub open spec fn advances(
        before: FileRun,
        event: FileEvent,
        after: FileRun,
        action: FileAction,
    ) -> bool {
        let what = after_event(event, before.expected_mtime);
        &&& after.expected_mtime == before.expected_mtime
        &&& after.stage == stage_for(what)
        &&& action.is(what)
    }

    /// A file for which nothing was done yet: its directories are made first.
    pub fn new(expected_mtime: Option<u64>) -> (r: Self)
        ensures
            r.stage == FileStage::Preparing,
            r.expected_mtime == expected_mtime,
    {
        FileRun { stage: FileStage::Preparing, expected_mtime }
    }

    fn fail(&mut self, reason: String, remove_part: bool) -> (r: FileAction)
        ensures
            final(self).stage == FileStage::Finished,
            final(self).expected_mtime == old(self).expected_mtime,
            r.is(FileMove::Fail { reason: reason@, remove_part }),
    {
        self.stage = FileStage::Finished;
        FileAction::Finish { outcome: FileOutcome::Failed(reason), remove_part }
    }

    fn succeed(&mut self) -> (r: FileAction)
        ensures
            final(self).stage == FileStage::Finished,
            final(self).expected_mtime == old(self).expected_mtime,
            r.is(FileMove::Succeed),
    {
        self.stage = FileStage::Finished;
        FileAction::Finish { outcome: FileOutcome::Succeeded, remove_part: false }
    }

    /// Takes whether the directories of the file could be made.
    pub fn parents_made(&mut self, made: &Result<(), IaGetError>) -> (r: FileAction)
        requires
            old(self).stage is Preparing,
        ensures
            Self::advances(*old(self), FileEvent::Parents { made: *made }, *final(self), r),
    {
        match made {
            Ok(_) => {
                self.stage = FileStage::Checking;
                FileAction::CheckExisting
            },
            Err(e) => self.fail(
                text::concat("could not prepare parent directories: ", &e.to_text()),
                false,
            ),
        }
    }

    /// Takes what was found of the copy that is there. An interruption ends
    /// the batch.
    pub fn handle_existing_file(&mut self, status: Result<ExistingFileStatus, IaGetError>) -> (r:
        Result<FileAction, IaGetError>)
        requires
            old(self).stage is Checking,
        ensures
            match status {
                Ok(_) => r matches Ok(action) && Self::advances(
                    *old(self),
                    FileEvent::Existing { status },
                    *final(self),
                    action,
                ),
                Err(stop) => r == Err::<FileAction, IaGetError>(stop) && final(self).stage
                    == FileStage::Finished && final(self).expected_mtime
                    == old(self).expected_mtime,
            },
    {
        match status {
            Err(e) => {
                self.stage = FileStage::Finished;
                Err(e)
            },
            Ok(ExistingFileStatus::Verified { md5 }) => {
                let notice = match &md5 {
                    Some(hash) => print_verified_hash(Some(hash.as_str())),
                    None => print_verified_hash(None),
                };
                self.stage = FileStage::Keeping;
                Ok(FileAction::Keep { mtime: mtime_from_xml(self.expected_mtime), notice })
            },
            Ok(ExistingFileStatus::Invalid) => {
                self.stage = FileStage::Removing;
                Ok(FileAction::RemoveStale { notice: print_stale_file_redownload() })
            },
            Ok(ExistingFileStatus::Unreadable(reason)) => Ok(self.fail(reason, false)),
            Ok(ExistingFileStatus::Missing) => {
                self.stage = FileStage::Downloading;
                Ok(FileAction::Download { remove_part: false })
            },
        }
    }

    /// Takes that the copy that is there was kept: the file has succeeded.
    pub fn copy_kept(&mut self) -> (r: FileAction)
        requires
            old(self).stage is Keeping,
        ensures
            Self::advances(*old(self), FileEvent::Kept, *final(self), r),
    {
        self.succeed()
    }

    /// Takes whether the wrong copy could be removed.
    pub fn stale_removed(&mut self, removed: &Result<(), IaGetError>) -> (r: FileAction)
        requires
            old(self).stage is Removing,
        ensures
            Self::advances(
                *old(self),
                FileEvent::StaleRemoved { removed: *removed },
                *final(self),
                r,
            ),
    {
        match removed {
            Ok(_) => {
                self.stage = FileStage::Downloading;
                FileAction::Download { remove_part: true }
            },
            Err(e) => self.fail(
                text::concat("stale file could not be removed: ", &e.to_text()),
                true,
            ),
        }
    }

    /// Takes what came of the attempts.
    pub fn attempts_over(&mut self, outcome: DownloadOutcome) -> (r: FileAction)
        requires
            old(self).stage is Downloading,
        ensures
            Self::advances(*old(self), FileEvent::AttemptsOver { outcome }, *final(self), r),
    {
        match outcome {
            DownloadOutcome::Verified { server_mtime } => {
                self.stage = FileStage::Installing;
                FileAction::Install { mtime: mtime_to_install(server_mtime, self.expected_mtime) }
            },
            DownloadOutcome::Failed { reason, discard_part } => self.fail(reason, discard_part),
        }
    }

    /// Takes whether the file could be installed.
    pub fn file_installed(&mut self, installed: &Result<(), IaGetError>) -> (r: FileAction)
        requires
            old(self).stage is Installing,
        ensures
            Self::advances(
                *old(self),
                FileEvent::Installed { installed: *installed },
                *final(self),
                r,
            ),
    {
        match installed {
            Ok(_) => self.succeed(),
            Err(e) => self.fail(text::concat("could not install file: ", &e.to_text()), false),
        }
    }
}

/// The copy that is there is removed only where it was read and found wrong,
/// and something is installed over it only where the download was verified.
pub proof fn copies_are_replaced_with_cause(
    status: ExistingFileStatus,
    outcome: DownloadOutcome,
    expected_mtime: Option<u64>,
)
    ensures
        existing_handling(status, expected_mtime) is RemoveStale <==> status is Invalid,
        existing_handling(status, expected_mtime) is Keep <==> status is Verified,
        after_attempts(outcome, expected_mtime) is Install <==> outcome is Verified,
{
}

/// A partial file that could still be resumed or verified is never thrown
/// away with a failure: it goes only where it is known to be no prefix, or
/// where it belonged to a wrong copy.
pub proof fn resumable_parts_are_kept(
    made: Result<(), IaGetError>,
    status: ExistingFileStatus,
    outcome: DownloadOutcome,
    installed: Result<(), IaGetError>,
    expected_mtime: Option<u64>,
)
    ensures
        after_parents(made) matches FileMove::Fail { remove_part, .. } ==> !remove_part,
        existing_handling(status, expected_mtime) matches FileMove::Fail { remove_part, .. }
            ==> !remove_part,
        after_attempts(outcome, expected_mtime) matches FileMove::Fail { remove_part, .. } ==> (
        remove_part <==> outcome->discard_part),
        after_install(installed) matches FileMove::Fail { remove_part, .. } ==> !remove_part,
{
}

/// Whether a reason ends with what the failure behind it reads.
pub open spec fn ends_with(reason: Seq<char>, said: Seq<char>) -> bool {
    said.len() <= reason.len() && reason.skip(reason.len() - said.len()) == said
}

/// What goes wrong with a file is a failure that says why; what goes right
/// leads on: from the directories to the copy that is there, from a missing
/// or removed copy to the download, from there to the installation, and from
/// that to success.
pub proof fn files_go_on_or_say_why(
    done: Result<(), IaGetError>,
    said: String,
    server_mtime: Option<u64>,
    discard_part: bool,
    expected_mtime: Option<u64>,
)
    ensures
        done is Ok ==> after_parents(done) is CheckExisting,
        done matches Err(e) ==> (after_parents(done) matches FileMove::Fail { reason, .. }
            && ends_with(reason, e.text())),
        existing_handling(ExistingFileStatus::Missing, expected_mtime) == (FileMove::Download {
            remove_part: false,
        }),
        existing_handling(ExistingFileStatus::Unreadable(said), expected_mtime)
            == (FileMove::Fail { reason: said@, remove_part: false }),
        done is Ok ==> after_stale_removal(done) == (FileMove::Download { remove_part: true }),
        done matches Err(e) ==> (after_stale_removal(done) matches FileMove::Fail {
            reason,
            remove_part,
        } && ends_with(reason, e.text()) && remove_part),
        after_attempts(DownloadOutcome::Failed { reason: said, discard_part }, expected_mtime)
            == (FileMove::Fail { reason: said@, remove_part: discard_part }),
        done is Ok ==> after_install(done) is Succeed,
        done matches Err(e) ==> (after_install(done) matches FileMove::Fail { reason, .. }
            && ends_with(reason, e.text())),
        after_event(FileEvent::Kept, expected_mtime) is Succeed,
{
    if let Err(e) = done {
        let first = "could not prepare parent directories: "@;
        let second = "stale file could not be removed: "@;
        let third = "could not install file: "@;
        assert((first + e.text()).skip(first.len() as int) =~= e.text());
        assert((second + e.text()).skip(second.len() as int) =~= e.text());
        assert((third + e.text()).skip(third.len() as int) =~= e.text());
    }
}

/// A kept copy gets the time that the metadata gives; a downloaded file the
/// one that the server gave, and only without that the metadata's.
pub proof fn files_get_their_time(
    md5: Option<String>,
    server: u64,
    expected_mtime: Option<u64>,
    secs: u64,
)
    requires
        secs < 0x8000_0000_0000_0000,
    ensures
        existing_handling(ExistingFileStatus::Verified { md5 }, Some(secs)) matches FileMove::Keep {
            mtime,
            ..
        } && mtime == Some(secs),
        existing_handling(ExistingFileStatus::Verified { md5 }, None) matches FileMove::Keep {
            mtime,
            ..
        } && mtime is None,
        after_attempts(
            DownloadOutcome::Verified { server_mtime: Some(server) },
            expected_mtime,
        ) == (FileMove::Install { mtime: Some(server) }),
        after_attempts(DownloadOutcome::Verified { server_mtime: None }, Some(secs))
            == (FileMove::Install { mtime: Some(secs) }),
        after_attempts(DownloadOutcome::Verified { server_mtime: None }, None)
            == (FileMove::Install { mtime: None }),
{
    mtime::server_times_win(server, expected_mtime, secs);
}

/// While something is being done for a file, what comes of that is the one
/// thing that can happen to it; nothing can after its end, and the user's
/// request while the copy is looked at is such an end.
pub proof fn stages_wait_for_their_event(what: FileMove, event: FileEvent)
    ensures
        what is CheckExisting ==> (can_occur(stage_for(what), event) <==> event is Existing),
        what is Keep ==> (can_occur(stage_for(what), event) <==> event is Kept),
        what is RemoveStale ==> (can_occur(stage_for(what), event) <==> event is StaleRemoved),
        what is Download ==> (can_occur(stage_for(what), event) <==> event is AttemptsOver),
        what is Install ==> (can_occur(stage_for(what), event) <==> event is Installed),
        (what is Succeed || what is Fail || what is Stop) ==> !can_occur(stage_for(what), event),
        event matches FileEvent::Existing { status } ==> (after_event(event, None) is Stop
            <==> status is Err),
{
}

/// An action is one move alone, and a file that succeeded never loses its
/// partial file by that.
pub proof fn actions_are_one_move(action: FileAction, first: FileMove, second: FileMove)
    requires
        action.is(first),
    ensures
        action.is(second) ==> first == second,
        action matches FileAction::Finish { outcome, remove_part } ==> (match outcome {
            FileOutcome::Succeeded => first is Succeed && !remove_part,
            FileOutcome::Failed(reason) => first == (FileMove::Fail {
                reason: reason@,
                remove_part,
            }),
        }),
        first is CheckExisting <==> action is CheckExisting,
        first is Download <==> action is Download,
        first is Install <==> action is Install,
        first is Keep <==> action is Keep,
        first is RemoveStale <==> action is RemoveStale,
{
}

} // verus!
