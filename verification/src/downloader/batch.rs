//! A batch of files, one after the other, and its closing account.

use crate::display;
use crate::display::{print_download_interrupted, print_download_summary};
use crate::downloader::file::FileOutcome;
use crate::error::IaGetError;
use crate::styled;
use crate::styled::{Line, Style};
use crate::text;
use vstd::prelude::*;

verus! {

/// A file that failed, and why.
#[derive(Debug)]
pub struct FailedFile {
    pub path: String,
    pub reason: String,
}

impl View for FailedFile {
    type V = (Seq<char>, Seq<char>);

    open spec fn view(&self) -> (Seq<char>, Seq<char>) {
        (self.path@, self.reason@)
    }
}

/// The files that failed, seen from contracts.
pub open spec fn failures(list: Seq<FailedFile>) -> Seq<(Seq<char>, Seq<char>)> {
    list.map_values(|file: FailedFile| file@)
}

// ---------------------------------------------------------------------------
// The account
// ---------------------------------------------------------------------------

/// The row of a failed file.
pub open spec fn failed_row(file: (Seq<char>, Seq<char>)) -> Seq<(Seq<char>, Style)> {
    seq![
        ("  "@, Style::Plain),
        (file.0, Style::Bold),
        (" "@, Style::Plain),
        (file.1, Style::Dimmed),
    ]
}

/// The heading above the failed files.
pub open spec fn failed_heading(count: nat) -> Seq<(Seq<char>, Style)> {
    seq![
        ("✘"@, Style::RedBold),
        (" "@, Style::Plain),
        ("Failed"@, Style::RedBold),
        (" "@, Style::Plain),
        (text::decimal(count), Style::Plain),
        (" file(s) could not be downloaded:"@, Style::Plain),
    ]
}

/// The account of the failed files: an empty line, a heading and one row for
/// each.
pub open spec fn failed_lines(failed: Seq<(Seq<char>, Seq<char>)>) -> Seq<
    Seq<(Seq<char>, Style)>,
> {
    seq![seq![(" "@, Style::Plain)], failed_heading(failed.len())] + failed.map_values(
        |file: (Seq<char>, Seq<char>)| failed_row(file),
    )
}

/// The account of the failed files.
pub fn print_failed_files(failed_files: &Vec<FailedFile>) -> (r: Vec<Line>)
    ensures
        styled::lines(r@) == failed_lines(failures(failed_files@)),
{
    let ghost wanted = failed_lines(failures(failed_files@));
    let mut lines: Vec<Line> = Vec::new();
    let mut blank = Line::new();
    blank.push(" ", Style::Plain);
    assert(blank@ =~= seq![(" "@, Style::Plain)]);
    lines.push(blank);
    let mut heading = Line::new();
    heading.push("✘", Style::RedBold);
    heading.push(" ", Style::Plain);
    heading.push("Failed", Style::RedBold);
    heading.push(" ", Style::Plain);
    heading.push(&text::decimal_text(failed_files.len() as u64), Style::Plain);
    heading.push(" file(s) could not be downloaded:", Style::Plain);
    assert(heading@ =~= failed_heading(failed_files@.len()));
    lines.push(heading);
    let mut i: usize = 0;
    while i < failed_files.len()
        invariant
            i <= failed_files.len(),
            wanted == failed_lines(failures(failed_files@)),
            lines@.len() == i + 2,
            forall|k: int| 0 <= k < lines@.len() ==> (#[trigger] lines@[k])@ == wanted[k],
        decreases failed_files.len() - i,
    {
        let mut row = Line::new();
        row.push("  ", Style::Plain);
        row.push(&failed_files[i].path, Style::Bold);
        row.push(" ", Style::Plain);
        row.push(&failed_files[i].reason, Style::Dimmed);
        assert(row@ =~= failed_row(failed_files@[i as int]@));
        assert(wanted[i + 2] == failed_row(failures(failed_files@)[i as int]));
        lines.push(row);
        i += 1;
    }
    assert(styled::lines(lines@) =~= wanted);
    lines
}

/// What the error of a batch says of each failed file.
pub open spec fn failure_texts(failed: Seq<(Seq<char>, Seq<char>)>) -> Seq<Seq<char>> {
    failed.map_values(|file: (Seq<char>, Seq<char>)| file.0 + ": "@ + file.1)
}

/// Whether an error is that of a batch of which these files failed.
pub open spec fn is_batch_failure(
    e: IaGetError,
    failed: Seq<(Seq<char>, Seq<char>)>,
    tasks: usize,
) -> bool {
    e matches IaGetError::BatchFailed { count, total, details } && count == failed.len() && total
        == tasks && details@ == text::join(failure_texts(failed), "; "@)
}

/// The error of a batch of which files failed.
pub fn batch_failed(failed_files: &Vec<FailedFile>, total: usize) -> (r: IaGetError)
    ensures
        is_batch_failure(r, failures(failed_files@), total),
{
    let ghost wanted = failure_texts(failures(failed_files@));
    let mut details = String::new();
    assert(details@ =~= text::join(wanted.take(0), "; "@));
    let mut i: usize = 0;
    while i < failed_files.len()
        invariant
            i <= failed_files.len(),
            wanted == failure_texts(failures(failed_files@)),
            details@ == text::join(wanted.take(i as int), "; "@),
        decreases failed_files.len() - i,
    {
        let ghost before = details@;
        if i > 0 {
            details.append("; ");
        }
        details.append(&failed_files[i].path);
        details.append(": ");
        details.append(&failed_files[i].reason);
        proof {
            let front = wanted.take(i + 1);
            assert(front.drop_last() =~= wanted.take(i as int));
            assert(failures(failed_files@)[i as int] == failed_files@[i as int]@);
            let row = failed_files@[i as int].path@ + ": "@ + failed_files@[i as int].reason@;
            assert(front.last() == row);
            if i > 0 {
                assert(details@ =~= before + "; "@ + row);
            } else {
                assert(details@ =~= row);
            }
        }
        i += 1;
    }
    assert(wanted.take(wanted.len() as int) =~= wanted);
    IaGetError::BatchFailed { count: failed_files.len(), total, details }
}

// ---------------------------------------------------------------------------
// The batch
// ---------------------------------------------------------------------------

/// A batch under way.
#[derive(Debug)]
pub struct Batch {
    /// How many files it has.
    pub tasks: usize,
    /// The number of its first file.
    pub file_number_start: usize,
    pub stop_on_error: bool,
    /// How many of its files are done.
    pub index: usize,
    /// Those that failed, in order.
    pub failed_files: Vec<FailedFile>,
}

/// What a batch does next.
#[derive(Debug)]
pub enum BatchAction {
    /// Process the file at the index, under its number.
    Process { index: usize, number: usize },
    /// Show the lines; the batch is over.
    End { lines: Vec<Line>, result: Result<(), IaGetError> },
}

/// What is shown when a batch is over: what failed, and the summary.
pub open spec fn closing_lines(failed: Seq<(Seq<char>, Seq<char>)>, tasks: usize) -> Seq<
    Seq<(Seq<char>, Style)>,
> {
    (if failed.len() > 0 {
        failed_lines(failed)
    } else {
        Seq::empty()
    }) + seq![
        Seq::empty(),
        display::download_summary_shown(
            tasks,
            (tasks - failed.len()) as usize,
            failed.len() as usize,
        ),
    ]
}

impl Batch {
    /// Whether the batch is where it can be.
    pub open spec fn is_valid(&self) -> bool {
        &&& self.index <= self.tasks
        &&& self.failed_files@.len() <= self.index
        &&& self.tasks + self.file_number_start <= usize::MAX
    }

    /// Whether no further file is processed: all are done, or one failed and
    /// that is enough.
    pub open spec fn is_over(&self) -> bool {
        self.index == self.tasks || (self.stop_on_error && self.failed_files@.len() > 0)
    }

    /// A batch of which nothing is done.
    pub fn new(tasks: usize, file_number_start: usize, stop_on_error: bool) -> (r: Self)
        requires
            tasks + file_number_start <= usize::MAX,
        ensures
            r.is_valid(),
            r.tasks == tasks,
            r.file_number_start == file_number_start,
            r.stop_on_error == stop_on_error,
            r.index == 0,
            r.failed_files@.len() == 0,
    {
        Batch { tasks, file_number_start, stop_on_error, index: 0, failed_files: Vec::new() }
    }

    /// What the batch does next. `running` is whether the user has not asked
    /// to stop.
    pub fn next(&self, running: bool) -> (r: BatchAction)
        requires
            self.is_valid(),
        ensures
            match r {
                BatchAction::Process { index, number } => {
                    &&& running
                    &&& !self.is_over()
                    &&& index == self.index
                    &&& number == self.index + self.file_number_start
                },
                BatchAction::End { lines, result } => {
                    if self.is_over() {
                        &&& styled::lines(lines@) == closing_lines(
                            failures(self.failed_files@),
                            self.tasks,
                        )
                        &&& result is Ok <==> self.failed_files@.len() == 0
                        &&& result is Err ==> is_batch_failure(
                            result->Err_0,
                            failures(self.failed_files@),
                            self.tasks,
                        )
                    } else {
                        &&& !running
                        &&& styled::lines(lines@) == seq![
                            Seq::empty(),
                            display::interrupted_shown(),
                        ]
                        &&& result is Err
                        &&& result->Err_0 is Interrupted
                    }
                },
            },
    {
        let failed: usize = self.failed_files.len();
        let over = self.index == self.tasks || (self.stop_on_error && failed > 0);
        if !over {
            if running {
                return BatchAction::Process {
                    index: self.index,
                    number: self.index + self.file_number_start,
                };
            }
            let mut lines: Vec<Line> = Vec::new();
            lines.push(Line::new());
            lines.push(print_download_interrupted());
            assert(styled::lines(lines@) =~= seq![Seq::empty(), display::interrupted_shown()]);
            return BatchAction::End { lines, result: Err(IaGetError::Interrupted) };
        }
        let mut lines: Vec<Line> = Vec::new();
        if failed > 0 {
            lines = print_failed_files(&self.failed_files);
        }
        let ghost first = styled::lines(lines@);
        lines.push(Line::new());
        lines.push(print_download_summary(self.tasks, self.tasks - failed, failed));
        proof {
            let rows = failures(self.failed_files@);
            let empty: Seq<(Seq<char>, Style)> = Seq::empty();
            assert(lines@[lines@.len() - 2]@ =~= empty);
            assert(styled::lines(lines@) =~= first + seq![
                empty,
                display::download_summary_shown(
                    self.tasks,
                    (self.tasks - rows.len()) as usize,
                    rows.len() as usize,
                ),
            ]);
            if failed == 0 {
                assert(first =~= Seq::empty());
            }
            assert(styled::lines(lines@) =~= closing_lines(rows, self.tasks));
        }
        let result = if failed > 0 {
            Err(batch_failed(&self.failed_files, self.tasks))
        } else {
            Ok(())
        };
        BatchAction::End { lines, result }
    }

    /// Takes what came of the file that was processed.
    pub fn record(&mut self, file_path: &str, outcome: FileOutcome)
        requires
            old(self).is_valid(),
            !old(self).is_over(),
        ensures
            final(self).is_valid(),
            final(self).tasks == old(self).tasks,
            final(self).file_number_start == old(self).file_number_start,
            final(self).stop_on_error == old(self).stop_on_error,
            final(self).index == old(self).index + 1,
            failures(final(self).failed_files@) == with_file(
                failures(old(self).failed_files@),
                file_path@,
                failure_of(outcome),
            ),
    {
        self.index = self.index + 1;
        if let FileOutcome::Failed(reason) = outcome {
            self.failed_files.push(FailedFile { path: file_path.to_owned(), reason });
            assert(failures(self.failed_files@) =~= failures(old(self).failed_files@).push(
                (file_path@, reason@),
            ));
        }
    }
}

// ---------------------------------------------------------------------------
// What a batch promises
// ---------------------------------------------------------------------------

/// The reason why a file failed, where it did.
pub open spec fn failure_of(outcome: FileOutcome) -> Option<Seq<char>> {
    match outcome {
        FileOutcome::Succeeded => None,
        FileOutcome::Failed(reason) => Some(reason@),
    }
}

/// The failures after one more file.
pub open spec fn with_file(
    failed: Seq<(Seq<char>, Seq<char>)>,
    path: Seq<char>,
    failure: Option<Seq<char>>,
) -> Seq<(Seq<char>, Seq<char>)> {
    match failure {
        None => failed,
        Some(reason) => failed.push((path, reason)),
    }
}

/// The failures after the files of a batch came out as given, one after the
/// other.
pub open spec fn failed_among(paths: Seq<Seq<char>>, outcomes: Seq<Option<Seq<char>>>) -> Seq<
    (Seq<char>, Seq<char>),
>
    decreases outcomes.len(),
{
    if outcomes.len() == 0 {
        Seq::empty()
    } else {
        with_file(
            failed_among(paths, outcomes.drop_last()),
            paths[outcomes.len() - 1],
            outcomes.last(),
        )
    }
}

/// How many files succeeded.
pub open spec fn succeeded(outcomes: Seq<Option<Seq<char>>>) -> nat
    decreases outcomes.len(),
{
    if outcomes.len() == 0 {
        0
    } else {
        succeeded(outcomes.drop_last()) + if outcomes.last() is None {
            1nat
        } else {
            0
        }
    }
}

/// Every file is in the account of a batch once: it succeeded, or it is among
/// the failures, with its own reason.
pub proof fn every_file_is_accounted_for(
    paths: Seq<Seq<char>>,
    outcomes: Seq<Option<Seq<char>>>,
)
    requires
        outcomes.len() <= paths.len(),
    ensures
        failed_among(paths, outcomes).len() + succeeded(outcomes) == outcomes.len(),
        forall|i: int|
            0 <= i < outcomes.len() && outcomes[i] is Some ==> failed_among(
                paths,
                outcomes,
            ).contains((paths[i], #[trigger] outcomes[i]->0)),
    decreases outcomes.len(),
{
    if outcomes.len() > 0 {
        let front = outcomes.drop_last();
        every_file_is_accounted_for(paths, front);
        let before = failed_among(paths, front);
        let all = failed_among(paths, outcomes);
        assert forall|i: int| 0 <= i < outcomes.len() && outcomes[i] is Some implies all.contains(
            (paths[i], #[trigger] outcomes[i]->0),
        ) by {
            let row = (paths[i], outcomes[i]->0);
            if i < front.len() {
                assert(front[i] == outcomes[i]);
                assert(before.contains((paths[i], front[i]->0)));
                let at = before.index_of(row);
                assert(all[at] == row);
            } else {
                assert(all[all.len() - 1] == row);
            }
        }
    }
}

/// A batch that goes on after failures ends only when every file is done; one
/// that stops at errors ends there, or at the first file that failed.
pub proof fn batches_end_when_they_should(
    batch: Batch,
    paths: Seq<Seq<char>>,
    outcomes: Seq<Option<Seq<char>>>,
)
    requires
        batch.is_valid(),
        paths.len() == batch.tasks,
        outcomes.len() == batch.index,
        failures(batch.failed_files@) == failed_among(paths, outcomes),
    ensures
        batch.is_over() <==> (batch.index == batch.tasks || (batch.stop_on_error && exists|i: int|
            0 <= i < outcomes.len() && (#[trigger] outcomes[i]) is Some)),
{
    every_file_is_accounted_for(paths, outcomes);
    lemma_failed_among(paths, outcomes);
    assert(failures(batch.failed_files@).len() == batch.failed_files@.len());
}

proof fn lemma_failed_among(paths: Seq<Seq<char>>, outcomes: Seq<Option<Seq<char>>>)
    ensures
        failed_among(paths, outcomes).len() > 0 <==> exists|i: int|
            0 <= i < outcomes.len() && (#[trigger] outcomes[i]) is Some,
    decreases outcomes.len(),
{
    if outcomes.len() > 0 {
        let front = outcomes.drop_last();
        lemma_failed_among(paths, front);
        if failed_among(paths, front).len() > 0 {
            let i = choose|i: int| 0 <= i < front.len() && (#[trigger] front[i]) is Some;
            assert(outcomes[i] == front[i]);
        }
        if outcomes.last() is Some {
            assert(outcomes[outcomes.len() - 1] is Some);
        } else if exists|i: int| 0 <= i < outcomes.len() && (#[trigger] outcomes[i]) is Some {
            let i = choose|i: int| 0 <= i < outcomes.len() && (#[trigger] outcomes[i]) is Some;
            assert(front[i] == outcomes[i]);
        }
    }
}

/// What a batch lists as failed did fail, with that reason, and the list is
/// in the order of the files.
pub proof fn listed_failures_are_failures(
    paths: Seq<Seq<char>>,
    outcomes: Seq<Option<Seq<char>>>,
) -> (positions: Seq<int>)
    ensures
        positions.len() == failed_among(paths, outcomes).len(),
        forall|k: int|
            0 <= k < positions.len() ==> 0 <= (#[trigger] positions[k]) < outcomes.len()
                && outcomes[positions[k]] is Some && failed_among(paths, outcomes)[k] == (
                paths[positions[k]],
                outcomes[positions[k]]->0,
            ),
        forall|k: int, l: int|
            0 <= k < l < positions.len() ==> #[trigger] positions[k] < #[trigger] positions[l],
    decreases outcomes.len(),
{
    if outcomes.len() == 0 {
        Seq::empty()
    } else {
        let before = listed_failures_are_failures(paths, outcomes.drop_last());
        if outcomes.last() is Some {
            before.push(outcomes.len() - 1)
        } else {
            before
        }
    }
}

/// The error of a batch says how many of how many files failed, and gives
/// for each its path and its reason, in order.
pub proof fn batch_errors_name_every_failure(
    failed: Seq<(Seq<char>, Seq<char>)>,
    path: Seq<char>,
    reason: Seq<char>,
    tasks: usize,
    first: IaGetError,
    all: IaGetError,
    alone: IaGetError,
)
    requires
        failed.len() > 0,
        is_batch_failure(first, failed, tasks),
        is_batch_failure(all, failed.push((path, reason)), tasks),
        is_batch_failure(alone, seq![(path, reason)], tasks),
    ensures
        all matches IaGetError::BatchFailed { count, total, details } && count == failed.len() + 1
            && total == tasks && details@ == first->details@ + seq![';', ' '] + path + seq![
            ':',
            ' ',
        ] + reason,
        alone matches IaGetError::BatchFailed { count, total, details } && count == 1 && total
            == tasks && details@ == path + seq![':', ' '] + reason,
{
    reveal_strlit("; ");
    reveal_strlit(": ");
    assert("; "@ =~= seq![';', ' ']);
    assert(": "@ =~= seq![':', ' ']);
    let last = seq![(path, reason)];
    let row = path + ": "@ + reason;
    assert(failure_texts(last) =~= seq![row]);
    assert(failure_texts(failed.push((path, reason))) =~= failure_texts(failed) + seq![row]);
    text::joining_goes_piece_by_piece(seq![row], seq![row], "; "@);
    text::joining_goes_piece_by_piece(failure_texts(failed), seq![row], "; "@);
    assert(all->details@ =~= first->details@ + seq![';', ' '] + path + seq![':', ' '] + reason);
}

/// A batch closes with its summary, after an empty line; where files failed,
/// a heading with their number and one line for each, with its path and its
/// reason, come before.
pub proof fn accounts_list_every_failure(failed: Seq<(Seq<char>, Seq<char>)>, tasks: usize, k: int)
    requires
        failed.len() <= tasks,
        0 <= k < failed.len() || failed.len() == 0,
    ensures
        ({
            let shown = closing_lines(failed, tasks);
            &&& failed.len() == 0 ==> shown.len() == 2
            &&& shown[shown.len() - 2].len() == 0
            &&& shown.last() == display::download_summary_shown(
                tasks,
                (tasks - failed.len()) as usize,
                failed.len() as usize,
            )
            &&& failed.len() > 0 ==> shown.len() == failed.len() + 4 && shown[1].contains(
                (text::decimal(failed.len()), Style::Plain),
            ) && styled::plain_text(shown[k + 2]) == seq![' ', ' '] + failed[k].0 + seq![' ']
                + failed[k].1
        }),
{
    if failed.len() > 0 {
        let shown = closing_lines(failed, tasks);
        assert(shown[1] == failed_heading(failed.len()));
        assert(failed_heading(failed.len())[4] == (text::decimal(failed.len()), Style::Plain));
        assert(shown[k + 2] == failed_row(failed[k]));
        reveal_strlit("  ");
        reveal_strlit(" ");
        assert("  "@ =~= seq![' ', ' ']);
        assert(" "@ =~= seq![' ']);
        let row = failed_row(failed[k]);
        let a = seq![row[0]];
        let b = seq![row[1]];
        let c = seq![row[2]];
        let d = seq![row[3]];
        assert(row =~= a + b + c + d);
        styled::lines_read_piece_by_piece(a + b + c, d, row[3].0, row[3].1);
        styled::lines_read_piece_by_piece(a + b, c, row[2].0, row[2].1);
        styled::lines_read_piece_by_piece(a, b, row[1].0, row[1].1);
        styled::lines_read_piece_by_piece(a, b, row[0].0, row[0].1);
    }
}

} // verus!
