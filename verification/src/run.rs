//! The order of a run's phases, and what it promises about them.

use vstd::prelude::*;

verus! {

/// What a run is about.
#[derive(Clone, Copy, Debug, PartialEq, Eq, Structural)]
pub enum Mode {
    /// Show the files of the item.
    List,
    /// Compare a directory with the metadata.
    Check,
    /// Download the files.
    Download,
}

/// What a run is about: to list wins over to check, and either over to
/// download.
pub fn mode_of(list: bool, check: bool) -> (r: Mode)
    ensures
        r == (if list {
            Mode::List
        } else if check {
            Mode::Check
        } else {
            Mode::Download
        }),
{
    if list {
        Mode::List
    } else if check {
        Mode::Check
    } else {
        Mode::Download
    }
}

/// A phase of a run.
#[derive(Clone, Copy, Debug, PartialEq, Eq, Structural)]
pub enum Phase {
    /// The proxy and the rate limit are settled.
    Settings,
    /// The HTTP client is made.
    Client,
    /// The URL is read, and the cookies.
    Target,
    /// The metadata is fetched and read.
    Metadata,
    /// The files are listed.
    List,
    /// The directory to check is looked for.
    CheckedDirectory,
    /// What should be in it is planned.
    CheckPlan,
    /// It is compared.
    Check,
    /// The directory that the files land in is made.
    OutputDirectory,
    /// The downloads are planned.
    Plan,
    /// The space on disk is compared with what they need.
    Space,
    /// The metadata document is saved.
    SaveMetadata,
    /// The files are downloaded.
    Download,
    /// Nothing follows.
    Ended,
}

impl Phase {
    /// Whether the phase may write to disk.
    pub open spec fn writes(self) -> bool {
        self is OutputDirectory || self is SaveMetadata || self is Download
    }

    /// Whether the phase uses the network.
    pub open spec fn connects(self) -> bool {
        self is Metadata || self is Download
    }
}

/// The phase that follows: a failed one ends the run.
pub open spec fn phase_after(phase: Phase, succeeded: bool, mode: Mode, whole_item: bool) -> Phase {
    if !succeeded {
        Phase::Ended
    } else {
        match phase {
            Phase::Settings => Phase::Client,
            Phase::Client => Phase::Target,
            Phase::Target => Phase::Metadata,
            Phase::Metadata => match mode {
                Mode::List => Phase::List,
                Mode::Check => Phase::CheckedDirectory,
                Mode::Download => Phase::OutputDirectory,
            },
            Phase::CheckedDirectory => Phase::CheckPlan,
            Phase::CheckPlan => Phase::Check,
            Phase::OutputDirectory => Phase::Plan,
            Phase::Plan => Phase::Space,
            Phase::Space => if whole_item {
                Phase::SaveMetadata
            } else {
                Phase::Download
            },
            Phase::SaveMetadata => Phase::Download,
            _ => Phase::Ended,
        }
    }
}

/// The phase that follows.
pub fn next_phase(phase: Phase, succeeded: bool, mode: Mode, whole_item: bool) -> (r: Phase)
    ensures
        r == phase_after(phase, succeeded, mode, whole_item),
{
    if !succeeded {
        return Phase::Ended;
    }
    match phase {
        Phase::Settings => Phase::Client,
        Phase::Client => Phase::Target,
        Phase::Target => Phase::Metadata,
        Phase::Metadata => match mode {
            Mode::List => Phase::List,
            Mode::Check => Phase::CheckedDirectory,
            Mode::Download => Phase::OutputDirectory,
        },
        Phase::CheckedDirectory => Phase::CheckPlan,
        Phase::CheckPlan => Phase::Check,
        Phase::OutputDirectory => Phase::Plan,
        Phase::Plan => Phase::Space,
        Phase::Space => if whole_item {
            Phase::SaveMetadata
        } else {
            Phase::Download
        },
        Phase::SaveMetadata => Phase::Download,
        _ => Phase::Ended,
    }
}

/// The phase that a run is in after its phases came out as given, one after
/// the other.
pub open spec fn reached(outcomes: Seq<bool>, mode: Mode, whole_item: bool) -> Phase
    decreases outcomes.len(),
{
    if outcomes.len() == 0 {
        Phase::Settings
    } else {
        phase_after(
            reached(outcomes.drop_last(), mode, whole_item),
            outcomes.last(),
            mode,
            whole_item,
        )
    }
}

/// Whether a run has been in a phase before.
pub open spec fn has_passed(
    outcomes: Seq<bool>,
    mode: Mode,
    whole_item: bool,
    phase: Phase,
) -> bool {
    exists|n: int|
        0 <= n < outcomes.len() && outcomes[n] && #[trigger] reached(
            outcomes.take(n),
            mode,
            whole_item,
        ) == phase
}

proof fn lemma_reached(outcomes: Seq<bool>, mode: Mode, whole_item: bool)
    ensures
        reached(outcomes, mode, whole_item) is List ==> mode is List,
        (reached(outcomes, mode, whole_item) is CheckedDirectory || reached(
            outcomes,
            mode,
            whole_item,
        ) is CheckPlan || reached(outcomes, mode, whole_item) is Check) ==> mode is Check,
        (reached(outcomes, mode, whole_item).writes() || reached(outcomes, mode, whole_item) is Plan
            || reached(outcomes, mode, whole_item) is Space) ==> mode is Download,
        reached(outcomes, mode, whole_item) is SaveMetadata ==> whole_item,
    decreases outcomes.len(),
{
    if outcomes.len() > 0 {
        lemma_reached(outcomes.drop_last(), mode, whole_item);
    }
}

proof fn lemma_passed_grows(outcomes: Seq<bool>, mode: Mode, whole_item: bool, phase: Phase)
    requires
        outcomes.len() > 0,
        has_passed(outcomes.drop_last(), mode, whole_item, phase),
    ensures
        has_passed(outcomes, mode, whole_item, phase),
{
    let front = outcomes.drop_last();
    let n = choose|n: int|
        0 <= n < front.len() && front[n] && #[trigger] reached(front.take(n), mode, whole_item)
            == phase;
    assert(outcomes.take(n) =~= front.take(n));
    assert(outcomes[n] == front[n]);
}

proof fn lemma_passed_last(outcomes: Seq<bool>, mode: Mode, whole_item: bool)
    requires
        outcomes.len() > 0,
        outcomes.last(),
    ensures
        has_passed(
            outcomes,
            mode,
            whole_item,
            reached(outcomes.drop_last(), mode, whole_item),
        ),
{
    let n = outcomes.len() - 1;
    assert(outcomes.take(n) =~= outcomes.drop_last());
    assert(outcomes[n] && reached(outcomes.take(n), mode, whole_item) == reached(
        outcomes.drop_last(),
        mode,
        whole_item,
    ));
}

/// To list and to check are read-only: whatever comes of their phases, no
/// phase that writes is ever reached.
pub proof fn read_only_modes_write_nothing(outcomes: Seq<bool>, mode: Mode, whole_item: bool)
    requires
        mode is List || mode is Check,
    ensures
        !reached(outcomes, mode, whole_item).writes(),
{
    lemma_reached(outcomes, mode, whole_item);
}

/// A single-file run never saves the metadata document.
pub proof fn single_file_runs_save_no_metadata(outcomes: Seq<bool>, mode: Mode)
    ensures
        !(reached(outcomes, mode, false) is SaveMetadata),
{
    lemma_reached(outcomes, mode, false);
}

/// Bad settings, and a bad URL, fail a run before it uses the network.
pub proof fn settings_come_before_the_network(outcomes: Seq<bool>, mode: Mode, whole_item: bool)
    requires
        reached(outcomes, mode, whole_item).connects(),
    ensures
        has_passed(outcomes, mode, whole_item, Phase::Settings),
        has_passed(outcomes, mode, whole_item, Phase::Target),
{
    lemma_order(outcomes, mode, whole_item);
}

/// Nothing is saved or downloaded before the plan stands and fits on disk.
pub proof fn plans_fit_before_anything_is_saved(
    outcomes: Seq<bool>,
    mode: Mode,
    whole_item: bool,
)
    requires
        reached(outcomes, mode, whole_item) is SaveMetadata || reached(
            outcomes,
            mode,
            whole_item,
        ) is Download,
    ensures
        has_passed(outcomes, mode, whole_item, Phase::Plan),
        has_passed(outcomes, mode, whole_item, Phase::Space),
{
    lemma_order(outcomes, mode, whole_item);
}

spec fn rank(phase: Phase) -> int {
    match phase {
        Phase::Settings => 0,
        Phase::Client => 1,
        Phase::Target => 2,
        Phase::Metadata => 3,
        Phase::List => 4,
        Phase::CheckedDirectory => 4,
        Phase::CheckPlan => 5,
        Phase::Check => 6,
        Phase::OutputDirectory => 4,
        Phase::Plan => 5,
        Phase::Space => 6,
        Phase::SaveMetadata => 7,
        Phase::Download => 8,
        Phase::Ended => 9,
    }
}

proof fn lemma_order(outcomes: Seq<bool>, mode: Mode, whole_item: bool)
    ensures
        ({
            let phase = reached(outcomes, mode, whole_item);
            &&& !(phase is Ended) && rank(phase) > 0 ==> has_passed(
                outcomes,
                mode,
                whole_item,
                Phase::Settings,
            )
            &&& !(phase is Ended) && rank(phase) > 2 ==> has_passed(
                outcomes,
                mode,
                whole_item,
                Phase::Target,
            )
            &&& (phase is Space || phase is SaveMetadata || phase is Download) ==> has_passed(
                outcomes,
                mode,
                whole_item,
                Phase::Plan,
            )
            &&& (phase is SaveMetadata || phase is Download) ==> has_passed(
                outcomes,
                mode,
                whole_item,
                Phase::Space,
            )
        }),
    decreases outcomes.len(),
{
    if outcomes.len() > 0 {
        let front = outcomes.drop_last();
        lemma_order(front, mode, whole_item);
        if has_passed(front, mode, whole_item, Phase::Settings) {
            lemma_passed_grows(outcomes, mode, whole_item, Phase::Settings);
        }
        if has_passed(front, mode, whole_item, Phase::Target) {
            lemma_passed_grows(outcomes, mode, whole_item, Phase::Target);
        }
        if has_passed(front, mode, whole_item, Phase::Plan) {
            lemma_passed_grows(outcomes, mode, whole_item, Phase::Plan);
        }
        if has_passed(front, mode, whole_item, Phase::Space) {
            lemma_passed_grows(outcomes, mode, whole_item, Phase::Space);
        }
        if outcomes.last() {
            lemma_passed_last(outcomes, mode, whole_item);
        }
    }
}

/// Every run ends: after at most nine phases nothing follows.
pub proof fn runs_end(outcomes: Seq<bool>, mode: Mode, whole_item: bool)
    requires
        outcomes.len() >= 9,
    ensures
        reached(outcomes, mode, whole_item) is Ended,
{
    lemma_rank_grows(outcomes, mode, whole_item);
}

proof fn lemma_rank_grows(outcomes: Seq<bool>, mode: Mode, whole_item: bool)
    ensures
        rank(reached(outcomes, mode, whole_item)) >= 9 || rank(reached(outcomes, mode, whole_item))
            >= outcomes.len(),
    decreases outcomes.len(),
{
    if outcomes.len() > 0 {
        lemma_rank_grows(outcomes.drop_last(), mode, whole_item);
    }
}

/// A run whose phases all succeed goes through exactly those of its mode, in
/// their order: every run settles, connects and reads the metadata; to list
/// shows the files; to check looks for the directory, plans and compares; to
/// download makes the directory, plans, looks for space, saves the metadata
/// of a whole item, and downloads.
pub proof fn runs_go_through_their_phases(outcomes: Seq<bool>, mode: Mode, whole_item: bool)
    requires
        forall|i: int| 0 <= i < outcomes.len() ==> #[trigger] outcomes[i],
    ensures
        ({
            let n = outcomes.len();
            let phase = reached(outcomes, mode, whole_item);
            &&& n == 0 ==> phase is Settings
            &&& n == 1 ==> phase is Client
            &&& n == 2 ==> phase is Target
            &&& n == 3 ==> phase is Metadata
            &&& mode is List && n == 4 ==> phase is List
            &&& mode is List && n > 4 ==> phase is Ended
            &&& mode is Check && n == 4 ==> phase is CheckedDirectory
            &&& mode is Check && n == 5 ==> phase is CheckPlan
            &&& mode is Check && n == 6 ==> phase is Check
            &&& mode is Check && n > 6 ==> phase is Ended
            &&& mode is Download && n == 4 ==> phase is OutputDirectory
            &&& mode is Download && n == 5 ==> phase is Plan
            &&& mode is Download && n == 6 ==> phase is Space
            &&& mode is Download && whole_item && n == 7 ==> phase is SaveMetadata
            &&& mode is Download && whole_item && n == 8 ==> phase is Download
            &&& mode is Download && whole_item && n > 8 ==> phase is Ended
            &&& mode is Download && !whole_item && n == 7 ==> phase is Download
            &&& mode is Download && !whole_item && n > 7 ==> phase is Ended
        }),
    decreases outcomes.len(),
{
    if outcomes.len() > 0 {
        assert(outcomes[outcomes.len() - 1]);
        assert forall|i: int| 0 <= i < outcomes.drop_last().len() implies #[trigger]
        outcomes.drop_last()[i] by {
            assert(outcomes[i]);
        }
        runs_go_through_their_phases(outcomes.drop_last(), mode, whole_item);
    }
}

/// A phase that fails ends the run, and nothing follows that.
pub proof fn failed_phases_end_the_run(
    outcomes: Seq<bool>,
    mode: Mode,
    whole_item: bool,
    i: int,
)
    requires
        0 <= i < outcomes.len(),
        !outcomes[i],
    ensures
        reached(outcomes, mode, whole_item) is Ended,
    decreases outcomes.len(),
{
    if i < outcomes.len() - 1 {
        failed_phases_end_the_run(outcomes.drop_last(), mode, whole_item, i);
    }
}

} // verus!
