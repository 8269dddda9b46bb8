//! Checking a directory against an archive's metadata: what a download would
//! have left there, against what is there.

use crate::display;
use crate::downloader::DownloadTask;
use crate::error::IaGetError;
use crate::plan;
use crate::plan::{local_path_key, DownloadPlan, PathCase};
use crate::styled;
use crate::styled::{Line, Style};
use crate::text;
use vstd::hash_set::StringHashSet;
use vstd::prelude::*;

verus! {

// ---------------------------------------------------------------------------
// The report
// ---------------------------------------------------------------------------

/// What a check found, by kind.
///
/// Missing, incomplete, wrongly sized, wrongly hashed and mistyped files
/// always fail a check. Differing times and extra files fail it only when it
/// is strict, and notes never do.
#[derive(Debug)]
pub struct CheckReport {
    /// Files that match the metadata.
    pub ok: Vec<String>,
    /// Listed files that are not there.
    pub missing: Vec<String>,
    /// Listed files of which only a partial file is there: the path, the
    /// bytes that are there, and the bytes expected.
    pub incomplete: Vec<(String, u64, u64)>,
    /// Files of the wrong size: the path, the size, and the one expected.
    pub size_mismatch: Vec<(String, u64, u64)>,
    /// Files of the wrong hash: the path, the hash, and the one expected.
    pub md5_mismatch: Vec<(String, String, String)>,
    /// Listed files where a directory stands.
    pub type_mismatch: Vec<String>,
    /// Files whose modification time differs.
    pub date_mismatch: Vec<String>,
    /// What no listed file accounts for.
    pub extra: Vec<String>,
    /// What else there is to say.
    pub notes: Vec<String>,
}

/// A report, seen from contracts.
#[verifier::ext_equal]
pub struct ReportView {
    pub ok: Seq<Seq<char>>,
    pub missing: Seq<Seq<char>>,
    pub incomplete: Seq<(Seq<char>, u64, u64)>,
    pub size_mismatch: Seq<(Seq<char>, u64, u64)>,
    pub md5_mismatch: Seq<(Seq<char>, Seq<char>, Seq<char>)>,
    pub type_mismatch: Seq<Seq<char>>,
    pub date_mismatch: Seq<Seq<char>>,
    pub extra: Seq<Seq<char>>,
    pub notes: Seq<Seq<char>>,
}

/// What each sized entry of a list is.
pub open spec fn sized(list: Seq<(String, u64, u64)>) -> Seq<(Seq<char>, u64, u64)> {
    list.map_values(|entry: (String, u64, u64)| (entry.0@, entry.1, entry.2))
}

/// What each hashed entry of a list is.
pub open spec fn hashed(list: Seq<(String, String, String)>) -> Seq<
    (Seq<char>, Seq<char>, Seq<char>),
> {
    list.map_values(|entry: (String, String, String)| (entry.0@, entry.1@, entry.2@))
}

impl View for CheckReport {
    type V = ReportView;

    open spec fn view(&self) -> ReportView {
        ReportView {
            ok: text::texts(self.ok@),
            missing: text::texts(self.missing@),
            incomplete: sized(self.incomplete@),
            size_mismatch: sized(self.size_mismatch@),
            md5_mismatch: hashed(self.md5_mismatch@),
            type_mismatch: text::texts(self.type_mismatch@),
            date_mismatch: text::texts(self.date_mismatch@),
            extra: text::texts(self.extra@),
            notes: text::texts(self.notes@),
        }
    }
}

/// A report without findings.
pub open spec fn empty_report() -> ReportView {
    ReportView {
        ok: Seq::empty(),
        missing: Seq::empty(),
        incomplete: Seq::empty(),
        size_mismatch: Seq::empty(),
        md5_mismatch: Seq::empty(),
        type_mismatch: Seq::empty(),
        date_mismatch: Seq::empty(),
        extra: Seq::empty(),
        notes: Seq::empty(),
    }
}

impl ReportView {
    /// The findings that fail every check.
    pub open spec fn hard(self) -> nat {
        self.missing.len() + self.incomplete.len() + self.size_mismatch.len()
            + self.md5_mismatch.len() + self.type_mismatch.len()
    }

    /// The findings that fail a strict check.
    pub open spec fn soft(self) -> nat {
        self.date_mismatch.len() + self.extra.len()
    }

    /// The findings that fail a check.
    pub open spec fn failing(self, strict: bool) -> nat {
        self.hard() + if strict {
            self.soft()
        } else {
            0
        }
    }

    /// The files that were judged.
    pub open spec fn judged(self) -> nat {
        self.ok.len() + self.hard()
    }

    /// Whether the findings can be counted in a machine word.
    pub open spec fn is_countable(self) -> bool {
        self.ok.len() + self.hard() + self.soft() <= usize::MAX
    }
}

/// A directory that passes a strict check passes the other.
pub proof fn strict_check_is_the_harder(report: ReportView)
    ensures
        report.failing(true) == 0 ==> report.failing(false) == 0,
        report.failing(false) <= report.failing(true),
{
}

// ---------------------------------------------------------------------------
// What is on disk
// ---------------------------------------------------------------------------

/// What a walk through a directory found, as paths below it.
#[derive(Debug)]
pub struct Listing {
    pub files: Vec<String>,
    pub dirs: Vec<String>,
}

/// What came of hashing a file.
#[derive(Debug)]
pub enum HashProbe {
    /// It was not hashed, for its path is not UTF-8.
    NotUtf8,
    /// Its MD5 hash.
    Hash(String),
    /// The user asked to stop.
    Interrupted,
    /// It could not be read.
    Failed(String),
}

/// A file that could be read.
#[derive(Debug)]
pub struct PresentFile {
    pub len: u64,
    /// Its modification time in Unix seconds.
    pub mtime: Option<u64>,
    /// Its hash, where the check wants it.
    pub hash: HashProbe,
}

/// What is on disk for a task.
#[derive(Debug)]
pub struct TaskProbe {
    /// The size of its partial file.
    pub part_len: Option<u64>,
    /// The file, or why it could not be read.
    pub file: Result<PresentFile, String>,
}

/// The path of an entry, from the path of its directory.
pub open spec fn walked(prefix: Seq<char>, name: Seq<char>) -> Seq<char> {
    if prefix.len() == 0 {
        name
    } else {
        prefix + "/"@ + name
    }
}

/// The path of an entry, from the path of its directory.
pub fn walked_path(prefix: &str, name: &str) -> (r: String)
    ensures
        r@ == walked(prefix@, name@),
{
    if prefix.is_empty() {
        name.to_owned()
    } else {
        let mut r = text::concat(prefix, "/");
        r.append(name);
        r
    }
}

/// Whether a list has a path with the given key.
pub open spec fn lists(list: Seq<Seq<char>>, key: Seq<char>, case: PathCase) -> bool {
    exists|i: int| 0 <= i < list.len() && plan::key_of(#[trigger] list[i], case) == key
}

/// A path below the output directory as one below the directory itself.
pub open spec fn relative(path: Seq<char>, output_dir: Seq<char>) -> Seq<char> {
    let prefix = output_dir + "/"@;
    if output_dir.len() > 0 && prefix.is_prefix_of(path) {
        path.skip(prefix.len() as int)
    } else {
        path
    }
}

/// A path that was put below a directory is found there.
pub proof fn relative_undoes_below(path: Seq<char>, output_dir: Seq<char>)
    ensures
        relative(plan::below(output_dir, path), output_dir) == path,
{
    if output_dir.len() > 0 {
        let prefix = output_dir + "/"@;
        let whole = prefix + path;
        assert(whole.subrange(0, prefix.len() as int) =~= prefix);
        assert(whole.skip(prefix.len() as int) =~= path);
    }
}

/// The path of a task's file below the directory that is checked.
pub fn expected_rel(file_path: &str, output_dir: &str) -> (r: String)
    ensures
        r@ == relative(file_path@, output_dir@),
{
    if output_dir.is_empty() {
        return file_path.to_owned();
    }
    let prefix = text::concat(output_dir, "/");
    let path = text::chars_of(file_path);
    if text::starts_with(&path, &prefix) {
        let n: usize = text::chars_of(&prefix).len();
        assert(path@.subrange(n as int, path@.len() as int) =~= path@.skip(n as int));
        text::text_between(&path, n, path.len())
    } else {
        file_path.to_owned()
    }
}

/// What stands where a file is expected.
#[derive(Clone, Copy, Debug, PartialEq, Eq, Structural)]
pub enum Standing {
    /// A directory.
    Directory,
    /// The file.
    Present,
    /// Its partial file alone.
    Partial,
    /// Nothing.
    Absent,
}

/// What stands where a file is expected.
pub open spec fn standing(
    path: Seq<char>,
    files: Seq<Seq<char>>,
    dirs: Seq<Seq<char>>,
    case: PathCase,
) -> Standing {
    let key = plan::key_of(path, case);
    if lists(dirs, key, case) {
        Standing::Directory
    } else if lists(files, key, case) {
        Standing::Present
    } else if lists(files, plan::key_of(path + ".part"@, case), case) {
        Standing::Partial
    } else {
        Standing::Absent
    }
}

/// Whether a present file has to be hashed: when hashes are wanted, one is
/// known, and the size is right.
pub open spec fn wants_hash(task: DownloadTask, len: u64, verify_md5: bool) -> bool {
    verify_md5 && task.expected_md5 is Some && (task.expected_size matches Some(size) ==> size
        == len)
}

/// Whether a present file has to be hashed.
pub fn needs_hash(task: &DownloadTask, len: u64, verify_md5: bool) -> (r: bool)
    ensures
        r == wants_hash(*task, len, verify_md5),
{
    verify_md5 && task.expected_md5.is_some() && match task.expected_size {
        Some(size) => size == len,
        None => true,
    }
}

// ---------------------------------------------------------------------------
// Judging one file
// ---------------------------------------------------------------------------

/// What a check finds of one file.
#[derive(Debug)]
#[allow(inconsistent_fields)]
pub enum Finding {
    Directory,
    Missing,
    Incomplete { have: u64, expected: u64 },
    Unreadable { reason: String },
    WrongSize { disk: u64, expected: u64 },
    Unhashed,
    HashFailed { reason: String },
    Interrupted,
    WrongHash { disk: String, expected: String },
    /// The file is right, whatever its time and hash are.
    Right { without_hash: bool, time_differs: bool },
}

/// A finding, seen from contracts.
#[allow(inconsistent_fields)]
pub enum FindingView {
    Directory,
    Missing,
    Incomplete { have: u64, expected: u64 },
    Unreadable { reason: Seq<char> },
    WrongSize { disk: u64, expected: u64 },
    Unhashed,
    HashFailed { reason: Seq<char> },
    Interrupted,
    WrongHash { disk: Seq<char>, expected: Seq<char> },
    Right { without_hash: bool, time_differs: bool },
}

impl View for Finding {
    type V = FindingView;

    open spec fn view(&self) -> FindingView {
        match *self {
            Finding::Directory => FindingView::Directory,
            Finding::Missing => FindingView::Missing,
            Finding::Incomplete { have, expected } => FindingView::Incomplete { have, expected },
            Finding::Unreadable { reason } => FindingView::Unreadable { reason: reason@ },
            Finding::WrongSize { disk, expected } => FindingView::WrongSize { disk, expected },
            Finding::Unhashed => FindingView::Unhashed,
            Finding::HashFailed { reason } => FindingView::HashFailed { reason: reason@ },
            Finding::Interrupted => FindingView::Interrupted,
            Finding::WrongHash { disk, expected } => FindingView::WrongHash {
                disk: disk@,
                expected: expected@,
            },
            Finding::Right { without_hash, time_differs } => FindingView::Right {
                without_hash,
                time_differs,
            },
        }
    }
}

/// A size, or zero where it is not known.
pub open spec fn or_zero(size: Option<u64>) -> u64 {
    match size {
        Some(n) => n,
        None => 0,
    }
}

/// What a check finds of a file that is there and could be read: size first,
/// then hash, then time.
pub open spec fn judged_file(task: DownloadTask, file: PresentFile, verify_md5: bool) -> FindingView {
    let right = FindingView::Right {
        without_hash: verify_md5 && task.expected_md5 is None,
        time_differs: task.expected_mtime is Some && file.mtime is Some && task.expected_mtime
            != file.mtime,
    };
    if task.expected_size matches Some(size) && size != file.len {
        FindingView::WrongSize { disk: file.len, expected: or_zero(task.expected_size) }
    } else if wants_hash(task, file.len, verify_md5) {
        match file.hash {
            HashProbe::NotUtf8 => FindingView::Unhashed,
            HashProbe::Interrupted => FindingView::Interrupted,
            HashProbe::Failed(reason) => FindingView::HashFailed { reason: reason@ },
            HashProbe::Hash(hash) => if text::lowered(hash@) == text::lowered(
                task.expected_md5->0@,
            ) {
                right
            } else {
                FindingView::WrongHash { disk: hash@, expected: task.expected_md5->0@ }
            },
        }
    } else {
        right
    }
}

/// What a check finds of a file.
pub open spec fn found(
    task: DownloadTask,
    probe: TaskProbe,
    standing: Standing,
    verify_md5: bool,
) -> FindingView {
    match standing {
        Standing::Directory => FindingView::Directory,
        Standing::Absent => FindingView::Missing,
        Standing::Partial => FindingView::Incomplete {
            have: or_zero(probe.part_len),
            expected: or_zero(task.expected_size),
        },
        Standing::Present => match probe.file {
            Err(reason) => FindingView::Unreadable { reason: reason@ },
            Ok(file) => judged_file(task, file, verify_md5),
        },
    }
}

fn or_zero_of(size: Option<u64>) -> (r: u64)
    ensures
        r == or_zero(size),
{
    match size {
        Some(n) => n,
        None => 0,
    }
}

fn judge_present(task: &DownloadTask, file: &PresentFile, verify_md5: bool) -> (r: Finding)
    ensures
        r@ == judged_file(*task, *file, verify_md5),
{
    if let Some(size) = task.expected_size {
        if size != file.len {
            return Finding::WrongSize { disk: file.len, expected: size };
        }
    }
    if needs_hash(task, file.len, verify_md5) {
        match &file.hash {
            HashProbe::NotUtf8 => {
                return Finding::Unhashed;
            },
            HashProbe::Interrupted => {
                return Finding::Interrupted;
            },
            HashProbe::Failed(reason) => {
                return Finding::HashFailed { reason: reason.clone() };
            },
            HashProbe::Hash(hash) => {
                if let Some(expected) = &task.expected_md5 {
                    if !text::same_ignoring_case(hash, expected) {
                        return Finding::WrongHash {
                            disk: hash.clone(),
                            expected: expected.clone(),
                        };
                    }
                }
            },
        }
    }
    let time_differs = match (task.expected_mtime, file.mtime) {
        (Some(expected), Some(disk)) => expected != disk,
        _ => false,
    };
    Finding::Right { without_hash: verify_md5 && task.expected_md5.is_none(), time_differs }
}

/// What a check finds of a file, from what stands in its place.
pub fn judge(task: &DownloadTask, probe: &TaskProbe, standing: Standing, verify_md5: bool) -> (r:
    Finding)
    ensures
        r@ == found(*task, *probe, standing, verify_md5),
{
    match standing {
        Standing::Directory => Finding::Directory,
        Standing::Absent => Finding::Missing,
        Standing::Partial => Finding::Incomplete {
            have: or_zero_of(probe.part_len),
            expected: or_zero_of(task.expected_size),
        },
        Standing::Present => match &probe.file {
            Err(reason) => Finding::Unreadable { reason: reason.clone() },
            Ok(file) => judge_present(task, file, verify_md5),
        },
    }
}

// ---------------------------------------------------------------------------
// Judging a directory
// ---------------------------------------------------------------------------

impl ReportView {
    /// The report with what was found of a file. A partial file next to one
    /// that could be read is a leftover.
    pub open spec fn with_finding(
        self,
        path: Seq<char>,
        finding: FindingView,
        has_part: bool,
    ) -> ReportView {
        let noted = if has_part {
            ReportView { extra: self.extra.push(path + ".part"@), ..self }
        } else {
            self
        };
        match finding {
            FindingView::Directory => ReportView {
                type_mismatch: self.type_mismatch.push(path),
                ..self
            },
            FindingView::Missing => ReportView { missing: self.missing.push(path), ..self },
            FindingView::Incomplete { have, expected } => ReportView {
                incomplete: self.incomplete.push((path, have, expected)),
                ..self
            },
            FindingView::Unreadable { reason } => ReportView {
                notes: self.notes.push("could not read "@ + path + ": "@ + reason),
                ..self
            },
            FindingView::WrongSize { disk, expected } => ReportView {
                size_mismatch: noted.size_mismatch.push((path, disk, expected)),
                ..noted
            },
            FindingView::Unhashed => ReportView {
                notes: noted.notes.push(
                    "non-UTF-8 path "@ + text::quoted(path) + "; hash not verified"@,
                ),
                ..noted
            },
            FindingView::HashFailed { reason } => ReportView {
                notes: noted.notes.push("could not hash "@ + path + ": "@ + reason),
                ..noted
            },
            FindingView::Interrupted => noted,
            FindingView::WrongHash { disk, expected } => ReportView {
                md5_mismatch: noted.md5_mismatch.push((path, disk, expected)),
                ..noted
            },
            FindingView::Right { without_hash, time_differs } => ReportView {
                notes: if without_hash {
                    noted.notes.push("no MD5 in metadata for "@ + path + "; hash not verified"@)
                } else {
                    noted.notes
                },
                date_mismatch: if time_differs {
                    noted.date_mismatch.push(path)
                } else {
                    noted.date_mismatch
                },
                ok: noted.ok.push(path),
                ..noted
            },
        }
    }
}

/// The paths of the tasks' files below the directory.
pub open spec fn expected_paths(tasks: Seq<DownloadTask>, output_dir: Seq<char>) -> Seq<Seq<char>> {
    tasks.map_values(|task: DownloadTask| relative(task.file_path@, output_dir))
}

/// The report on the tasks' files: one finding after the other, up to an
/// interruption.
pub open spec fn tasks_report(
    start: ReportView,
    tasks: Seq<DownloadTask>,
    probes: Seq<TaskProbe>,
    files: Seq<Seq<char>>,
    dirs: Seq<Seq<char>>,
    output_dir: Seq<char>,
    verify_md5: bool,
    case: PathCase,
) -> Option<ReportView>
    decreases tasks.len(),
{
    if tasks.len() == 0 {
        Some(start)
    } else {
        match tasks_report(
            start,
            tasks.drop_last(),
            probes.drop_last(),
            files,
            dirs,
            output_dir,
            verify_md5,
            case,
        ) {
            None => None,
            Some(before) => {
                let path = relative(tasks.last().file_path@, output_dir);
                let finding = found(
                    tasks.last(),
                    probes.last(),
                    standing(path, files, dirs, case),
                    verify_md5,
                );
                if finding is Interrupted {
                    None
                } else {
                    Some(
                        before.with_finding(
                            path,
                            finding,
                            lists(files, plan::key_of(path + ".part"@, case), case),
                        ),
                    )
                }
            },
        }
    }
}

/// Whether a path that was found is accounted for: a planned file, its
/// partial file, or the metadata document of a whole-item run.
pub open spec fn is_accounted_for(
    path: Seq<char>,
    expected: Seq<Seq<char>>,
    metadata: Option<Seq<char>>,
    case: PathCase,
) -> bool {
    ||| lists(expected, plan::key_of(path, case), case)
    ||| metadata is Some && plan::key_of(path, case) == plan::key_of(metadata->0, case)
    ||| ".part"@.is_suffix_of(path) && lists(
        expected,
        plan::key_of(path.take(path.len() - ".part"@.len()), case),
        case,
    )
}

/// The found files that nothing accounts for.
pub open spec fn extra_files(
    files: Seq<Seq<char>>,
    expected: Seq<Seq<char>>,
    metadata: Option<Seq<char>>,
    case: PathCase,
) -> Seq<Seq<char>> {
    files.filter(|path: Seq<char>| !is_accounted_for(path, expected, metadata, case))
}

/// Whether one of the paths lies below a directory.
pub open spec fn any_below(paths: Seq<Seq<char>>, dir: Seq<char>) -> bool {
    exists|i: int| 0 <= i < paths.len() && (dir + "/"@).is_prefix_of(#[trigger] paths[i])
}

/// The found directories below which neither a found nor a planned file lies.
pub open spec fn extra_dirs(
    dirs: Seq<Seq<char>>,
    files: Seq<Seq<char>>,
    expected: Seq<Seq<char>>,
) -> Seq<Seq<char>> {
    dirs.filter(|dir: Seq<char>| !any_below(files, dir) && !any_below(expected, dir))
}

/// The report on a directory; nothing where the user asked to stop.
pub open spec fn directory_report(
    tasks: Seq<DownloadTask>,
    probes: Seq<TaskProbe>,
    files: Seq<Seq<char>>,
    dirs: Seq<Seq<char>>,
    metadata: Option<Seq<char>>,
    output_dir: Seq<char>,
    verify_md5: bool,
    case: PathCase,
) -> Option<ReportView> {
    let start = if metadata is Some && !lists(files, plan::key_of(metadata->0, case), case) {
        ReportView { missing: seq![metadata->0], ..empty_report() }
    } else {
        empty_report()
    };
    match tasks_report(start, tasks, probes, files, dirs, output_dir, verify_md5, case) {
        None => None,
        Some(report) => Some(
            ReportView {
                extra: report.extra + extra_files(
                    files,
                    expected_paths(tasks, output_dir),
                    metadata,
                    case,
                ) + extra_dirs(dirs, files, expected_paths(tasks, output_dir)),
                ..report
            },
        ),
    }
}

/// The keys of a list of paths.
fn key_set(paths: &Vec<String>, case: PathCase) -> (r: StringHashSet)
    ensures
        forall|k: Seq<char>| #[trigger] r@.contains(k) == lists(text::texts(paths@), k, case),
{
    let mut set = StringHashSet::new();
    let ghost all = text::texts(paths@);
    let mut i: usize = 0;
    while i < paths.len()
        invariant
            i <= paths.len(),
            all == text::texts(paths@),
            forall|k: Seq<char>|
                #[trigger] set@.contains(k) == lists(all.take(i as int), k, case),
        decreases paths.len() - i,
    {
        let ghost before = set@;
        let key = local_path_key(&paths[i], case);
        let ghost new = key@;
        set.insert(key);
        proof {
            assert(all.take(i + 1) =~= all.take(i as int).push(all[i as int]));
            assert(paths@[i as int]@ == all[i as int]);
            assert forall|k: Seq<char>|
                #[trigger] set@.contains(k) == lists(all.take(i + 1), k, case) by {
                assert(before.contains(k) == lists(all.take(i as int), k, case));
                lemma_lists_push(all.take(i as int), all[i as int], k, case);
            }
        }
        i += 1;
    }
    assert(all.take(all.len() as int) =~= all);
    set
}

proof fn lemma_lists_push(list: Seq<Seq<char>>, path: Seq<char>, key: Seq<char>, case: PathCase)
    ensures
        lists(list.push(path), key, case) == (lists(list, key, case) || plan::key_of(path, case)
            == key),
{
    let all = list.push(path);
    if lists(list, key, case) {
        let i = choose|i: int| 0 <= i < list.len() && plan::key_of(#[trigger] list[i], case) == key;
        assert(all[i] == list[i]);
    }
    if plan::key_of(path, case) == key {
        assert(all[list.len() as int] == path);
    }
    if lists(all, key, case) {
        let i = choose|i: int| 0 <= i < all.len() && plan::key_of(#[trigger] all[i], case) == key;
        if i < list.len() {
            assert(list[i] == all[i]);
        }
    }
}

/// What stands where each planned file is expected, for a caller that is to
/// look at it.
pub fn standings(plan: &DownloadPlan, listing: &Listing, output_dir: &str, case: PathCase) -> (r:
    Vec<Standing>)
    ensures
        r@.len() == plan.tasks@.len(),
        forall|i: int|
            0 <= i < r@.len() ==> #[trigger] r@[i] == standing(
                relative(plan.tasks@[i].file_path@, output_dir@),
                text::texts(listing.files@),
                text::texts(listing.dirs@),
                case,
            ),
{
    let file_set = key_set(&listing.files, case);
    let dir_set = key_set(&listing.dirs, case);
    let mut list: Vec<Standing> = Vec::new();
    let mut i: usize = 0;
    while i < plan.tasks.len()
        invariant
            i <= plan.tasks.len(),
            list@.len() == i,
            forall|k: Seq<char>|
                #[trigger] file_set@.contains(k) == lists(text::texts(listing.files@), k, case),
            forall|k: Seq<char>|
                #[trigger] dir_set@.contains(k) == lists(text::texts(listing.dirs@), k, case),
            forall|k: int|
                0 <= k < i ==> #[trigger] list@[k] == standing(
                    relative(plan.tasks@[k].file_path@, output_dir@),
                    text::texts(listing.files@),
                    text::texts(listing.dirs@),
                    case,
                ),
        decreases plan.tasks.len() - i,
    {
        let path = expected_rel(&plan.tasks[i].file_path, output_dir);
        list.push(standing_of(&path, &file_set, &dir_set, case, Ghost(listing)));
        i += 1;
    }
    list
}

fn standing_of(
    path: &str,
    file_set: &StringHashSet,
    dir_set: &StringHashSet,
    case: PathCase,
    listing: Ghost<&Listing>,
) -> (r: Standing)
    requires
        forall|k: Seq<char>|
            #[trigger] file_set@.contains(k) == lists(text::texts(listing@.files@), k, case),
        forall|k: Seq<char>|
            #[trigger] dir_set@.contains(k) == lists(text::texts(listing@.dirs@), k, case),
    ensures
        r == standing(path@, text::texts(listing@.files@), text::texts(listing@.dirs@), case),
{
    let key = local_path_key(path, case);
    if dir_set.contains(&key) {
        return Standing::Directory;
    }
    if file_set.contains(&key) {
        return Standing::Present;
    }
    let part = text::concat(path, ".part");
    if file_set.contains(&local_path_key(&part, case)) {
        Standing::Partial
    } else {
        Standing::Absent
    }
}

impl Default for CheckReport {
    /// A report without findings: each of its lists is empty.
    fn default() -> (r: Self)
        ensures
            r@ == empty_report(),
    {
        CheckReport::new()
    }
}

impl CheckReport {
    /// A report without findings.
    pub fn new() -> (r: Self)
        ensures
            r@ == empty_report(),
    {
        let r = CheckReport {
            ok: Vec::new(),
            missing: Vec::new(),
            incomplete: Vec::new(),
            size_mismatch: Vec::new(),
            md5_mismatch: Vec::new(),
            type_mismatch: Vec::new(),
            date_mismatch: Vec::new(),
            extra: Vec::new(),
            notes: Vec::new(),
        };
        assert(r@ =~= empty_report());
        r
    }

    fn push_missing(&mut self, path: &str)
        ensures
            final(self)@ == (ReportView { missing: old(self)@.missing.push(path@), ..old(self)@ }),
    {
        self.missing.push(path.to_owned());
        assert(self@.missing =~= old(self)@.missing.push(path@));
    }

    fn push_extra(&mut self, path: &str)
        ensures
            final(self)@ == (ReportView { extra: old(self)@.extra.push(path@), ..old(self)@ }),
    {
        self.extra.push(path.to_owned());
        assert(self@.extra =~= old(self)@.extra.push(path@));
    }

    fn push_note(&mut self, note: String)
        ensures
            final(self)@ == (ReportView { notes: old(self)@.notes.push(note@), ..old(self)@ }),
    {
        self.notes.push(note);
        assert(self@.notes =~= old(self)@.notes.push(note@));
    }

    /// Adds what was found of a file.
    fn add_finding(&mut self, path: &str, finding: Finding, has_part: bool)
        requires
            finding !is Interrupted,
        ensures
            final(self)@ == old(self)@.with_finding(path@, finding@, has_part),
    {
        match finding {
            Finding::Directory => {
                self.type_mismatch.push(path.to_owned());
                assert(self@.type_mismatch =~= old(self)@.type_mismatch.push(path@));
                return ;
            },
            Finding::Missing => {
                self.push_missing(path);
                return ;
            },
            Finding::Incomplete { have, expected } => {
                self.incomplete.push((path.to_owned(), have, expected));
                assert(self@.incomplete =~= old(self)@.incomplete.push((path@, have, expected)));
                return ;
            },
            Finding::Unreadable { reason } => {
                let mut note = text::concat("could not read ", path);
                note.append(": ");
                note.append(&reason);
                self.push_note(note);
                return ;
            },
            _ => {},
        }
        if has_part {
            self.push_extra(&text::concat(path, ".part"));
        }
        let ghost noted = self@;
        match finding {
            Finding::WrongSize { disk, expected } => {
                self.size_mismatch.push((path.to_owned(), disk, expected));
                assert(self@.size_mismatch =~= noted.size_mismatch.push((path@, disk, expected)));
            },
            Finding::Unhashed => {
                let mut note = text::concat("non-UTF-8 path ", &text::quote(path));
                note.append("; hash not verified");
                self.push_note(note);
            },
            Finding::HashFailed { reason } => {
                let mut note = text::concat("could not hash ", path);
                note.append(": ");
                note.append(&reason);
                self.push_note(note);
            },
            Finding::WrongHash { disk, expected } => {
                let ghost entry = (path@, disk@, expected@);
                self.md5_mismatch.push((path.to_owned(), disk, expected));
                assert(self@.md5_mismatch =~= noted.md5_mismatch.push(entry));
            },
            Finding::Right { without_hash, time_differs } => {
                if without_hash {
                    let mut note = text::concat("no MD5 in metadata for ", path);
                    note.append("; hash not verified");
                    self.push_note(note);
                }
                let ghost before = self@;
                if time_differs {
                    self.date_mismatch.push(path.to_owned());
                    assert(self@.date_mismatch =~= before.date_mismatch.push(path@));
                }
                let ghost before = self@;
                self.ok.push(path.to_owned());
                assert(self@.ok =~= before.ok.push(path@));
            },
            _ => {},
        }
    }
}

/// A `.part` name without its ending.
fn part_base(path: &str) -> (r: Option<String>)
    ensures
        match r {
            Some(base) => ".part"@.is_suffix_of(path@) && base@ == path@.take(
                path@.len() - ".part"@.len(),
            ),
            None => !".part"@.is_suffix_of(path@),
        },
{
    let chars = text::chars_of(path);
    if text::ends_with(&chars, ".part") {
        let n: usize = chars.len() - text::chars_of(".part").len();
        assert(chars@.subrange(0, n as int) =~= chars@.take(n as int));
        Some(text::text_between(&chars, 0, n))
    } else {
        None
    }
}

fn accounts_for(
    path: &str,
    expected_set: &StringHashSet,
    metadata: &Option<String>,
    case: PathCase,
    expected: Ghost<Seq<Seq<char>>>,
) -> (r: bool)
    requires
        forall|k: Seq<char>| #[trigger] expected_set@.contains(k) == lists(expected@, k, case),
    ensures
        r == is_accounted_for(path@, expected@, text::maybe(*metadata), case),
{
    let key = local_path_key(path, case);
    if expected_set.contains(&key) {
        return true;
    }
    if let Some(name) = metadata {
        if text::same(&key, &local_path_key(name, case)) {
            return true;
        }
    }
    match part_base(path) {
        Some(base) => expected_set.contains(&local_path_key(&base, case)),
        None => false,
    }
}

fn has_below(paths: &Vec<String>, dir: &str) -> (r: bool)
    ensures
        r == any_below(text::texts(paths@), dir@),
{
    let prefix = text::concat(dir, "/");
    let ghost all = text::texts(paths@);
    let mut i: usize = 0;
    while i < paths.len()
        invariant
            i <= paths.len(),
            all == text::texts(paths@),
            prefix@ == dir@ + "/"@,
            forall|k: int| 0 <= k < i ==> !(dir@ + "/"@).is_prefix_of(#[trigger] all[k]),
        decreases paths.len() - i,
    {
        assert(paths@[i as int]@ == all[i as int]);
        if text::starts_with(&text::chars_of(&paths[i]), &prefix) {
            return true;
        }
        i += 1;
    }
    false
}

/// Checks a directory against a plan: every planned file for its presence,
/// size and, where wanted, hash, with its time compared too; and everything
/// that was found for whether a planned file accounts for it.
///
/// In a whole-item run the metadata document must be there as well, and is
/// no extra file. An interruption while hashing ends the check.
pub fn check_directory(
    plan: &DownloadPlan,
    xml_file_name: &str,
    whole_item: bool,
    output_dir: &str,
    verify_md5: bool,
    listing: &Listing,
    probes: &Vec<TaskProbe>,
    case: PathCase,
) -> (r: Result<CheckReport, IaGetError>)
    requires
        probes@.len() == plan.tasks@.len(),
    ensures
        match directory_report(
            plan.tasks@,
            probes@,
            text::texts(listing.files@),
            text::texts(listing.dirs@),
            if whole_item {
                Some(xml_file_name@)
            } else {
                None
            },
            output_dir@,
            verify_md5,
            case,
        ) {
            Some(report) => r matches Ok(made) && made@ == report,
            None => r matches Err(e) && e is Interrupted,
        },
{
    let ghost files = text::texts(listing.files@);
    let ghost dirs = text::texts(listing.dirs@);
    let ghost tasks = plan.tasks@;
    let ghost metadata = if whole_item {
        Some(xml_file_name@)
    } else {
        None::<Seq<char>>
    };
    let file_set = key_set(&listing.files, case);
    let dir_set = key_set(&listing.dirs, case);
    let mut report = CheckReport::new();
    if whole_item && !file_set.contains(&local_path_key(xml_file_name, case)) {
        report.push_missing(xml_file_name);
        assert(report@.missing =~= seq![xml_file_name@]);
    }
    let ghost start = report@;
    let mut expected: Vec<String> = Vec::new();
    let mut i: usize = 0;
    while i < plan.tasks.len()
        invariant
            i <= plan.tasks.len(),
            probes@.len() == plan.tasks@.len(),
            tasks == plan.tasks@,
            files == text::texts(listing.files@),
            dirs == text::texts(listing.dirs@),
            expected@.len() == i,
            forall|k: int|
                0 <= k < i ==> (#[trigger] expected@[k])@ == relative(
                    tasks[k].file_path@,
                    output_dir@,
                ),
            forall|k: Seq<char>| #[trigger] file_set@.contains(k) == lists(files, k, case),
            forall|k: Seq<char>| #[trigger] dir_set@.contains(k) == lists(dirs, k, case),
            tasks_report(
                start,
                tasks.take(i as int),
                probes@.take(i as int),
                files,
                dirs,
                output_dir@,
                verify_md5,
                case,
            ) == Some(report@),
            start == (if metadata is Some && !lists(
                files,
                plan::key_of(metadata->0, case),
                case,
            ) {
                ReportView { missing: seq![metadata->0], ..empty_report() }
            } else {
                empty_report()
            }),
            metadata == (if whole_item {
                Some(xml_file_name@)
            } else {
                None
            }),
        decreases plan.tasks.len() - i,
    {
        let task = &plan.tasks[i];
        let path = expected_rel(&task.file_path, output_dir);
        let place = standing_of(&path, &file_set, &dir_set, case, Ghost(listing));
        let has_part = file_set.contains(&local_path_key(&text::concat(&path, ".part"), case));
        let finding = judge(task, &probes[i], place, verify_md5);
        proof {
            assert(tasks.take(i + 1).drop_last() =~= tasks.take(i as int));
            assert(probes@.take(i + 1).drop_last() =~= probes@.take(i as int));
        }
        match finding {
            Finding::Interrupted => {
                proof {
                    lemma_interrupted(
                        start,
                        tasks,
                        probes@,
                        i + 1,
                        files,
                        dirs,
                        output_dir@,
                        verify_md5,
                        case,
                    );
                }
                return Err(IaGetError::Interrupted);
            },
            _ => {},
        }
        report.add_finding(&path, finding, has_part);
        expected.push(path);
        i += 1;
    }
    proof {
        assert(tasks.take(tasks.len() as int) =~= tasks);
        assert(probes@.take(probes@.len() as int) =~= probes@);
        assert(text::texts(expected@) =~= expected_paths(tasks, output_dir@));
    }
    let expected_set = key_set(&expected, case);
    let xml_name: Option<String> = if whole_item {
        Some(xml_file_name.to_owned())
    } else {
        None
    };
    let ghost judged = report@;
    let ghost wanted = text::texts(expected@);
    proof {
        assert(extra_files(files.take(0), wanted, metadata, case) =~= Seq::empty()) by {
            reveal(Seq::filter);
        }
        assert(judged.extra + extra_files(files.take(0), wanted, metadata, case) =~= judged.extra);
    }
    let mut i: usize = 0;
    while i < listing.files.len()
        invariant
            i <= listing.files.len(),
            files == text::texts(listing.files@),
            forall|k: Seq<char>| #[trigger] expected_set@.contains(k) == lists(wanted, k, case),
            metadata == text::maybe(xml_name),
            report@ == (ReportView {
                extra: judged.extra + extra_files(files.take(i as int), wanted, metadata, case),
                ..judged
            }),
        decreases listing.files.len() - i,
    {
        let path = &listing.files[i];
        let ghost before = report@.extra;
        proof {
            reveal(Seq::filter);
            assert(path@ == files[i as int]);
            assert(files.take(i + 1).drop_last() =~= files.take(i as int));
        }
        if !accounts_for(path, &expected_set, &xml_name, case, Ghost(wanted)) {
            report.push_extra(path);
            assert(report@.extra =~= judged.extra + extra_files(
                files.take(i + 1),
                wanted,
                metadata,
                case,
            ));
        }
        i += 1;
    }
    proof {
        assert(files.take(files.len() as int) =~= files);
        assert(extra_dirs(dirs.take(0), files, wanted) =~= Seq::empty()) by {
            reveal(Seq::filter);
        }
    }
    let ghost with_files = report@;
    assert(with_files.extra + extra_dirs(dirs.take(0), files, wanted) =~= with_files.extra);
    let mut i: usize = 0;
    while i < listing.dirs.len()
        invariant
            i <= listing.dirs.len(),
            dirs == text::texts(listing.dirs@),
            files == text::texts(listing.files@),
            wanted == text::texts(expected@),
            report@ == (ReportView {
                extra: with_files.extra + extra_dirs(dirs.take(i as int), files, wanted),
                ..with_files
            }),
        decreases listing.dirs.len() - i,
    {
        let dir = &listing.dirs[i];
        proof {
            reveal(Seq::filter);
            assert(dir@ == dirs[i as int]);
            assert(dirs.take(i + 1).drop_last() =~= dirs.take(i as int));
        }
        if !has_below(&listing.files, dir) && !has_below(&expected, dir) {
            report.push_extra(dir);
            assert(report@.extra =~= with_files.extra + extra_dirs(
                dirs.take(i + 1),
                files,
                wanted,
            ));
        }
        i += 1;
    }
    assert(dirs.take(dirs.len() as int) =~= dirs);
    Ok(report)
}

/// A check that was interrupted at a file has ended.
proof fn lemma_interrupted(
    start: ReportView,
    tasks: Seq<DownloadTask>,
    probes: Seq<TaskProbe>,
    i: int,
    files: Seq<Seq<char>>,
    dirs: Seq<Seq<char>>,
    output_dir: Seq<char>,
    verify_md5: bool,
    case: PathCase,
)
    requires
        0 <= i <= tasks.len(),
        probes.len() == tasks.len(),
        tasks_report(
            start,
            tasks.take(i),
            probes.take(i),
            files,
            dirs,
            output_dir,
            verify_md5,
            case,
        ) is None,
    ensures
        tasks_report(start, tasks, probes, files, dirs, output_dir, verify_md5, case) is None,
    decreases tasks.len(),
{
    if i == tasks.len() {
        assert(tasks.take(i) =~= tasks);
        assert(probes.take(i) =~= probes);
    } else {
        assert(tasks.drop_last().take(i) =~= tasks.take(i));
        assert(probes.drop_last().take(i) =~= probes.take(i));
        lemma_interrupted(
            start,
            tasks.drop_last(),
            probes.drop_last(),
            i,
            files,
            dirs,
            output_dir,
            verify_md5,
            case,
        );
    }
}

// ---------------------------------------------------------------------------
// What a report promises
// ---------------------------------------------------------------------------

/// How many of the tasks' files were neither right nor wrong: those that
/// could not be read or hashed.
pub open spec fn unjudged(
    tasks: Seq<DownloadTask>,
    probes: Seq<TaskProbe>,
    files: Seq<Seq<char>>,
    dirs: Seq<Seq<char>>,
    output_dir: Seq<char>,
    verify_md5: bool,
    case: PathCase,
) -> nat
    decreases tasks.len(),
{
    if tasks.len() == 0 {
        0
    } else {
        let path = relative(tasks.last().file_path@, output_dir);
        let finding = found(
            tasks.last(),
            probes.last(),
            standing(path, files, dirs, case),
            verify_md5,
        );
        unjudged(
            tasks.drop_last(),
            probes.drop_last(),
            files,
            dirs,
            output_dir,
            verify_md5,
            case,
        ) + if finding is Unreadable || finding is Unhashed || finding is HashFailed {
            1nat
        } else {
            0
        }
    }
}

proof fn lemma_tasks_are_judged_once(
    start: ReportView,
    tasks: Seq<DownloadTask>,
    probes: Seq<TaskProbe>,
    files: Seq<Seq<char>>,
    dirs: Seq<Seq<char>>,
    output_dir: Seq<char>,
    verify_md5: bool,
    case: PathCase,
)
    requires
        tasks_report(start, tasks, probes, files, dirs, output_dir, verify_md5, case) is Some,
    ensures
        ({
            let report = tasks_report(
                start,
                tasks,
                probes,
                files,
                dirs,
                output_dir,
                verify_md5,
                case,
            )->0;
            report.judged() + unjudged(
                tasks,
                probes,
                files,
                dirs,
                output_dir,
                verify_md5,
                case,
            ) == start.judged() + tasks.len()
        }),
    decreases tasks.len(),
{
    if tasks.len() > 0 {
        lemma_tasks_are_judged_once(
            start,
            tasks.drop_last(),
            probes.drop_last(),
            files,
            dirs,
            output_dir,
            verify_md5,
            case,
        );
    }
}

/// Every planned file, and the metadata document where it is missing, is
/// judged exactly once, but for those that could not be read or hashed.
pub proof fn every_file_is_judged_once(
    tasks: Seq<DownloadTask>,
    probes: Seq<TaskProbe>,
    files: Seq<Seq<char>>,
    dirs: Seq<Seq<char>>,
    metadata: Option<Seq<char>>,
    output_dir: Seq<char>,
    verify_md5: bool,
    case: PathCase,
)
    requires
        directory_report(
            tasks,
            probes,
            files,
            dirs,
            metadata,
            output_dir,
            verify_md5,
            case,
        ) is Some,
    ensures
        directory_report(
            tasks,
            probes,
            files,
            dirs,
            metadata,
            output_dir,
            verify_md5,
            case,
        )->0.judged() + unjudged(tasks, probes, files, dirs, output_dir, verify_md5, case)
            == tasks.len() + if metadata is Some && !lists(
            files,
            plan::key_of(metadata->0, case),
            case,
        ) {
            1nat
        } else {
            0
        },
{
    let start = if metadata is Some && !lists(files, plan::key_of(metadata->0, case), case) {
        ReportView { missing: seq![metadata->0], ..empty_report() }
    } else {
        empty_report()
    };
    lemma_tasks_are_judged_once(
        start,
        tasks,
        probes,
        files,
        dirs,
        output_dir,
        verify_md5,
        case,
    );
}

proof fn lemma_filter_keeps(list: Seq<Seq<char>>, keep: spec_fn(Seq<char>) -> bool, i: int)
    requires
        0 <= i < list.filter(keep).len(),
    ensures
        keep(list.filter(keep)[i]),
        list.contains(list.filter(keep)[i]),
    decreases list.len(),
{
    reveal(Seq::filter);
    if list.len() > 0 {
        let head = list.drop_last();
        if i < head.filter(keep).len() {
            lemma_filter_keeps(head, keep, i);
            let at = choose|k: int| 0 <= k < head.len() && head[k] == head.filter(keep)[i];
            assert(list[at] == list.filter(keep)[i]);
        } else {
            assert(list[list.len() - 1] == list.filter(keep)[i]);
        }
    }
}

/// Neither a planned file, nor its partial file, nor the metadata document
/// of a whole-item run is among the extra files that were found.
pub proof fn accounted_files_are_no_extras(
    files: Seq<Seq<char>>,
    expected: Seq<Seq<char>>,
    metadata: Option<Seq<char>>,
    case: PathCase,
    i: int,
)
    requires
        0 <= i < extra_files(files, expected, metadata, case).len(),
    ensures
        !is_accounted_for(extra_files(files, expected, metadata, case)[i], expected, metadata, case),
        files.contains(extra_files(files, expected, metadata, case)[i]),
{
    lemma_filter_keeps(
        files,
        |path: Seq<char>| !is_accounted_for(path, expected, metadata, case),
        i,
    );
}

/// A found file is judged right only where it has the size that the metadata
/// has, where it has one, and the hash, where one is known and wanted.
pub proof fn right_files_match(task: DownloadTask, file: PresentFile, verify_md5: bool)
    requires
        judged_file(task, file, verify_md5) is Right,
    ensures
        task.expected_size matches Some(size) ==> size == file.len,
        verify_md5 && task.expected_md5 is Some ==> (file.hash matches HashProbe::Hash(hash)
            && text::lowered(hash@) == text::lowered(task.expected_md5->0@)),
{
}

/// Whether a file that could be read could not be hashed, though that was
/// wanted.
pub open spec fn is_unhashed(task: DownloadTask, file: PresentFile, verify_md5: bool) -> bool {
    wants_hash(task, file.len, verify_md5) && (file.hash is NotUtf8 || file.hash is Failed)
}

/// Whether a planned file is in order: it stands in its place, with the size
/// that the metadata has, where it has one, and the hash, where one is known
/// and wanted. What could not be read or hashed is set aside.
pub open spec fn is_in_order(
    task: DownloadTask,
    probe: TaskProbe,
    place: Standing,
    verify_md5: bool,
) -> bool {
    place is Present && match probe.file {
        Err(_) => true,
        Ok(file) => (task.expected_size matches Some(size) ==> size == file.len) && (verify_md5
            && task.expected_md5 is Some ==> match file.hash {
            HashProbe::Hash(hash) => text::lowered(hash@) == text::lowered(
                task.expected_md5->0@,
            ),
            _ => true,
        }),
    }
}

/// Whether the time of a planned file is that of the metadata, as far as
/// both are known. What could not be read or hashed is set aside.
pub open spec fn is_in_time(task: DownloadTask, probe: TaskProbe, verify_md5: bool) -> bool {
    probe.file matches Ok(file) ==> is_unhashed(task, file, verify_md5) || task.expected_mtime
        is None || file.mtime is None || task.expected_mtime == file.mtime
}

/// Whether a partial file is left over next to a planned file that could be
/// read.
pub open spec fn has_leftover(
    task: DownloadTask,
    probe: TaskProbe,
    files: Seq<Seq<char>>,
    output_dir: Seq<char>,
    case: PathCase,
) -> bool {
    probe.file is Ok && lists(
        files,
        plan::key_of(relative(task.file_path@, output_dir) + ".part"@, case),
        case,
    )
}

/// Whether every planned file is in order.
pub open spec fn all_in_order(
    tasks: Seq<DownloadTask>,
    probes: Seq<TaskProbe>,
    files: Seq<Seq<char>>,
    dirs: Seq<Seq<char>>,
    output_dir: Seq<char>,
    verify_md5: bool,
    case: PathCase,
) -> bool {
    forall|i: int|
        0 <= i < tasks.len() ==> is_in_order(
            #[trigger] tasks[i],
            probes[i],
            standing(relative(tasks[i].file_path@, output_dir), files, dirs, case),
            verify_md5,
        )
}

/// Whether no time of a planned file differs.
pub open spec fn all_in_time(
    tasks: Seq<DownloadTask>,
    probes: Seq<TaskProbe>,
    verify_md5: bool,
) -> bool {
    forall|i: int|
        0 <= i < tasks.len() ==> is_in_time(#[trigger] tasks[i], probes[i], verify_md5)
}

/// Whether no partial file is left over.
pub open spec fn no_leftovers(
    tasks: Seq<DownloadTask>,
    probes: Seq<TaskProbe>,
    files: Seq<Seq<char>>,
    output_dir: Seq<char>,
    case: PathCase,
) -> bool {
    forall|i: int|
        0 <= i < tasks.len() ==> !has_leftover(
            #[trigger] tasks[i],
            probes[i],
            files,
            output_dir,
            case,
        )
}

/// Whether a planned file accounts for everything that was found: for each
/// file, and for each directory that no found file lies below.
pub open spec fn nothing_is_extra(
    tasks: Seq<DownloadTask>,
    files: Seq<Seq<char>>,
    dirs: Seq<Seq<char>>,
    metadata: Option<Seq<char>>,
    output_dir: Seq<char>,
    case: PathCase,
) -> bool {
    let expected = expected_paths(tasks, output_dir);
    &&& forall|i: int|
        0 <= i < files.len() ==> is_accounted_for(#[trigger] files[i], expected, metadata, case)
    &&& forall|i: int|
        0 <= i < dirs.len() ==> any_below(files, #[trigger] dirs[i]) || any_below(
            expected,
            dirs[i],
        )
}

proof fn lemma_finding(
    before: ReportView,
    task: DownloadTask,
    probe: TaskProbe,
    files: Seq<Seq<char>>,
    dirs: Seq<Seq<char>>,
    output_dir: Seq<char>,
    verify_md5: bool,
    case: PathCase,
)
    ensures
        ({
            let path = relative(task.file_path@, output_dir);
            let place = standing(path, files, dirs, case);
            let finding = found(task, probe, place, verify_md5);
            let has_part = lists(files, plan::key_of(path + ".part"@, case), case);
            let after = before.with_finding(path, finding, has_part);
            let right = is_in_order(task, probe, place, verify_md5);
            finding !is Interrupted ==> {
                &&& after.hard() == 0 <==> before.hard() == 0 && right
                &&& right ==> (after.date_mismatch.len() == 0 <==> before.date_mismatch.len() == 0
                    && is_in_time(task, probe, verify_md5))
                &&& right ==> (after.extra.len() == 0 <==> before.extra.len() == 0
                    && !has_leftover(task, probe, files, output_dir, case))
            }
        }),
{
}

proof fn lemma_clean_tasks(
    start: ReportView,
    tasks: Seq<DownloadTask>,
    probes: Seq<TaskProbe>,
    files: Seq<Seq<char>>,
    dirs: Seq<Seq<char>>,
    output_dir: Seq<char>,
    verify_md5: bool,
    case: PathCase,
)
    requires
        probes.len() == tasks.len(),
        tasks_report(start, tasks, probes, files, dirs, output_dir, verify_md5, case) is Some,
    ensures
        ({
            let report = tasks_report(
                start,
                tasks,
                probes,
                files,
                dirs,
                output_dir,
                verify_md5,
                case,
            )->0;
            let right = all_in_order(tasks, probes, files, dirs, output_dir, verify_md5, case);
            &&& report.hard() == 0 <==> start.hard() == 0 && right
            &&& right ==> (report.date_mismatch.len() == 0 <==> start.date_mismatch.len() == 0
                && all_in_time(tasks, probes, verify_md5))
            &&& right ==> (report.extra.len() == 0 <==> start.extra.len() == 0 && no_leftovers(
                tasks,
                probes,
                files,
                output_dir,
                case,
            ))
        }),
    decreases tasks.len(),
{
    if tasks.len() > 0 {
        let t = tasks.drop_last();
        let p = probes.drop_last();
        let n = t.len() as int;
        lemma_clean_tasks(start, t, p, files, dirs, output_dir, verify_md5, case);
        let before = tasks_report(start, t, p, files, dirs, output_dir, verify_md5, case)->0;
        lemma_finding(
            before,
            tasks.last(),
            probes.last(),
            files,
            dirs,
            output_dir,
            verify_md5,
            case,
        );
        assert(tasks.last() == tasks[n] && probes.last() == probes[n]);
        assert forall|i: int| 0 <= i < n implies #[trigger] t[i] == tasks[i] && p[i]
            == probes[i] by {}
        assert forall|i: int| 0 <= i < n implies t[i] == #[trigger] tasks[i] && p[i]
            == probes[i] by {}
        let last_place = standing(
            relative(tasks[n].file_path@, output_dir),
            files,
            dirs,
            case,
        );
        assert(all_in_order(tasks, probes, files, dirs, output_dir, verify_md5, case)
            <==> all_in_order(t, p, files, dirs, output_dir, verify_md5, case) && is_in_order(
            tasks[n],
            probes[n],
            last_place,
            verify_md5,
        ));
        assert(all_in_time(tasks, probes, verify_md5) <==> all_in_time(t, p, verify_md5)
            && is_in_time(tasks[n], probes[n], verify_md5));
        assert(no_leftovers(tasks, probes, files, output_dir, case) <==> no_leftovers(
            t,
            p,
            files,
            output_dir,
            case,
        ) && !has_leftover(tasks[n], probes[n], files, output_dir, case));
    }
}

proof fn lemma_filter_empty(list: Seq<Seq<char>>, keep: spec_fn(Seq<char>) -> bool)
    ensures
        list.filter(keep).len() == 0 <==> forall|i: int|
            0 <= i < list.len() ==> !keep(#[trigger] list[i]),
    decreases list.len(),
{
    reveal(Seq::filter);
    if list.len() > 0 {
        let head = list.drop_last();
        lemma_filter_empty(head, keep);
        assert forall|i: int| 0 <= i < head.len() implies #[trigger] head[i] == list[i] by {}
        if forall|i: int| 0 <= i < head.len() ==> !keep(#[trigger] head[i]) {
            assert forall|i: int| 0 <= i < list.len() && !keep(list.last()) implies !keep(
                #[trigger] list[i],
            ) by {
                if i < head.len() {
                    assert(!keep(head[i]));
                }
            }
        } else {
            let i = choose|i: int| 0 <= i < head.len() && keep(#[trigger] head[i]);
            assert(keep(list[i]));
        }
        assert(list[list.len() - 1] == list.last());
    }
}

/// A directory passes the check exactly where the metadata document of a
/// whole item is there and every planned file is in order; a strict check
/// also asks that no time differs, no partial file is left over and nothing
/// found is extra. Files that could not be read or hashed are set aside.
pub proof fn clean_checks_mean_all_is_in_order(
    tasks: Seq<DownloadTask>,
    probes: Seq<TaskProbe>,
    files: Seq<Seq<char>>,
    dirs: Seq<Seq<char>>,
    metadata: Option<Seq<char>>,
    output_dir: Seq<char>,
    verify_md5: bool,
    case: PathCase,
    strict: bool,
)
    requires
        probes.len() == tasks.len(),
        directory_report(
            tasks,
            probes,
            files,
            dirs,
            metadata,
            output_dir,
            verify_md5,
            case,
        ) is Some,
    ensures
        directory_report(
            tasks,
            probes,
            files,
            dirs,
            metadata,
            output_dir,
            verify_md5,
            case,
        )->0.failing(strict) == 0 <==> {
            &&& metadata matches Some(name) ==> lists(files, plan::key_of(name, case), case)
            &&& all_in_order(tasks, probes, files, dirs, output_dir, verify_md5, case)
            &&& strict ==> all_in_time(tasks, probes, verify_md5) && no_leftovers(
                tasks,
                probes,
                files,
                output_dir,
                case,
            ) && nothing_is_extra(tasks, files, dirs, metadata, output_dir, case)
        },
{
    let start = if metadata is Some && !lists(files, plan::key_of(metadata->0, case), case) {
        ReportView { missing: seq![metadata->0], ..empty_report() }
    } else {
        empty_report()
    };
    let expected = expected_paths(tasks, output_dir);
    lemma_clean_tasks(start, tasks, probes, files, dirs, output_dir, verify_md5, case);
    lemma_filter_empty(
        files,
        |path: Seq<char>| !is_accounted_for(path, expected, metadata, case),
    );
    lemma_filter_empty(
        dirs,
        |dir: Seq<char>| !any_below(files, dir) && !any_below(expected, dir),
    );
}

// ---------------------------------------------------------------------------
// Showing a report
// ---------------------------------------------------------------------------

impl CheckReport {
    /// How many findings fail the check.
    pub fn failing_count(&self, strict: bool) -> (r: usize)
        requires
            self@.is_countable(),
        ensures
            r == self@.failing(strict),
    {
        let hard: usize = self.missing.len() + self.incomplete.len() + self.size_mismatch.len()
            + self.md5_mismatch.len() + self.type_mismatch.len();
        if strict {
            hard + (self.date_mismatch.len() + self.extra.len())
        } else {
            hard
        }
    }

    /// Whether the directory passes the check.
    pub fn is_clean(&self, strict: bool) -> (r: bool)
        ensures
            r == (self@.failing(strict) == 0),
    {
        self.missing.len() == 0 && self.incomplete.len() == 0 && self.size_mismatch.len() == 0
            && self.md5_mismatch.len() == 0 && self.type_mismatch.len() == 0 && (!strict || (
        self.date_mismatch.len() == 0 && self.extra.len() == 0))
    }
}

/// The findings that are shown by a path or a text alone.
#[derive(Clone, Copy, PartialEq, Eq, Structural)]
pub enum Kind {
    Right,
    Missing,
    Directory,
    Date,
    Extra,
    Note,
}

/// The start of a finding's line: a sign and a path.
pub open spec fn finding_head(sign: Seq<char>, style: Style, path: Seq<char>) -> Seq<
    (Seq<char>, Style),
> {
    seq![(sign, style), (" "@, Style::Plain), (path, Style::Plain)]
}

/// The line for a finding that is shown by a path or a text alone.
pub open spec fn kind_line(kind: Kind, path: Seq<char>) -> Seq<(Seq<char>, Style)> {
    match kind {
        Kind::Right => finding_head("✔"@, Style::GreenBold, path),
        Kind::Missing => finding_head("✘"@, Style::RedBold, path).push(("  "@, Style::Plain)).push(
            ("missing"@, Style::Red),
        ),
        Kind::Directory => finding_head("✘"@, Style::RedBold, path).push(
            ("  "@, Style::Plain),
        ).push(("a directory occupies this file path"@, Style::Red)),
        Kind::Date => finding_head("▲"@, Style::YellowBold, path).push(("  "@, Style::Plain)).push(
            ("last-modified time differs"@, Style::Yellow),
        ),
        Kind::Extra => seq![
            ("⚠"@, Style::YellowBold),
            (" "@, Style::Plain),
            ("extra "@ + path, Style::Yellow),
        ],
        Kind::Note => seq![("ℹ"@, Style::BlueBold), (" "@, Style::Plain), (path, Style::Dimmed)],
    }
}

/// The line for an incomplete file.
pub open spec fn incomplete_line(entry: (Seq<char>, u64, u64)) -> Seq<(Seq<char>, Style)> {
    finding_head("…"@, Style::YellowBold, entry.0).push(("  "@, Style::Plain)).push(
        ("incomplete"@, Style::Yellow),
    ).push((" ("@, Style::Plain)).push(
        (display::size_words(entry.1 as nat), Style::Dimmed),
    ).push(("/"@, Style::Plain)).push(
        (display::size_words(entry.2 as nat), Style::Dimmed),
    ).push((")"@, Style::Plain))
}

/// The line for a file that is not what was expected.
pub open spec fn unlike_line(
    path: Seq<char>,
    what: Seq<char>,
    disk: Seq<char>,
    expected: Seq<char>,
) -> Seq<(Seq<char>, Style)> {
    finding_head("✘"@, Style::RedBold, path).push(("  "@, Style::Plain)).push(
        (what, Style::Red),
    ).push((" "@, Style::Plain)).push((disk, Style::Red)).push(
        (" (expected "@, Style::Plain),
    ).push((expected, Style::Dimmed)).push((")"@, Style::Plain))
}

/// The line for a file of the wrong size.
pub open spec fn size_line(entry: (Seq<char>, u64, u64)) -> Seq<(Seq<char>, Style)> {
    unlike_line(
        entry.0,
        "size"@,
        display::size_words(entry.1 as nat),
        display::size_words(entry.2 as nat),
    )
}

/// The line for a file of the wrong hash.
pub open spec fn hash_line(entry: (Seq<char>, Seq<char>, Seq<char>)) -> Seq<(Seq<char>, Style)> {
    unlike_line(entry.0, "md5"@, entry.1, entry.2)
}

/// The closing line: how many files were judged, and what was found.
pub open spec fn summary_line(report: ReportView) -> Seq<(Seq<char>, Style)> {
    seq![
        ("Σ"@, Style::Bold),
        (
            " checked "@ + text::decimal(report.judged()) + (if report.judged() == 1 {
                " file: "@
            } else {
                " files: "@
            }) + text::decimal(report.ok.len()) + " ok, "@ + text::decimal(report.missing.len())
                + " missing, "@ + text::decimal(report.incomplete.len()) + " incomplete, "@
                + text::decimal(report.size_mismatch.len()) + " size, "@ + text::decimal(
                report.md5_mismatch.len(),
            ) + " md5, "@ + text::decimal(report.type_mismatch.len()) + " type, "@ + text::decimal(
                report.date_mismatch.len(),
            ) + " date⚠, "@ + text::decimal(report.extra.len()) + " extra⚠"@,
            Style::Plain,
        ),
    ]
}

/// The lines for findings of one kind.
pub open spec fn kind_lines(kind: Kind, paths: Seq<Seq<char>>) -> Seq<Seq<(Seq<char>, Style)>> {
    paths.map_values(|path: Seq<char>| kind_line(kind, path))
}

/// The lines of a report: its findings by kind, an empty line, and the
/// closing one.
pub open spec fn report_lines(report: ReportView) -> Seq<Seq<(Seq<char>, Style)>> {
    kind_lines(Kind::Right, report.ok) + report.incomplete.map_values(
        |entry: (Seq<char>, u64, u64)| incomplete_line(entry),
    ) + kind_lines(Kind::Missing, report.missing) + report.size_mismatch.map_values(
        |entry: (Seq<char>, u64, u64)| size_line(entry),
    ) + report.md5_mismatch.map_values(
        |entry: (Seq<char>, Seq<char>, Seq<char>)| hash_line(entry),
    ) + kind_lines(Kind::Directory, report.type_mismatch) + kind_lines(
        Kind::Date,
        report.date_mismatch,
    ) + kind_lines(Kind::Extra, report.extra) + kind_lines(Kind::Note, report.notes) + seq![
        Seq::<(Seq<char>, Style)>::empty(),
        summary_line(report),
    ]
}

fn head_line(sign: &str, style: Style, path: &str) -> (r: Line)
    ensures
        r@ == finding_head(sign@, style, path@),
{
    let mut line = Line::new();
    line.push(sign, style);
    line.push(" ", Style::Plain);
    line.push(path, Style::Plain);
    line
}

fn line_of_kind(kind: Kind, path: &str) -> (r: Line)
    ensures
        r@ == kind_line(kind, path@),
{
    match kind {
        Kind::Right => head_line("✔", Style::GreenBold, path),
        Kind::Missing => {
            let mut line = head_line("✘", Style::RedBold, path);
            line.push("  ", Style::Plain);
            line.push("missing", Style::Red);
            line
        },
        Kind::Directory => {
            let mut line = head_line("✘", Style::RedBold, path);
            line.push("  ", Style::Plain);
            line.push("a directory occupies this file path", Style::Red);
            line
        },
        Kind::Date => {
            let mut line = head_line("▲", Style::YellowBold, path);
            line.push("  ", Style::Plain);
            line.push("last-modified time differs", Style::Yellow);
            line
        },
        Kind::Extra => {
            let mut line = Line::new();
            line.push("⚠", Style::YellowBold);
            line.push(" ", Style::Plain);
            line.push(&text::concat("extra ", path), Style::Yellow);
            line
        },
        Kind::Note => {
            let mut line = Line::new();
            line.push("ℹ", Style::BlueBold);
            line.push(" ", Style::Plain);
            line.push(path, Style::Dimmed);
            line
        },
    }
}

fn line_of_incomplete(path: &str, have: u64, expected: u64) -> (r: Line)
    ensures
        r@ == incomplete_line((path@, have, expected)),
{
    let mut line = head_line("…", Style::YellowBold, path);
    line.push("  ", Style::Plain);
    line.push("incomplete", Style::Yellow);
    line.push(" (", Style::Plain);
    line.push(&display::format_size(have), Style::Dimmed);
    line.push("/", Style::Plain);
    line.push(&display::format_size(expected), Style::Dimmed);
    line.push(")", Style::Plain);
    line
}

fn line_of_unlike(path: &str, what: &str, disk: &str, expected: &str) -> (r: Line)
    ensures
        r@ == unlike_line(path@, what@, disk@, expected@),
{
    let mut line = head_line("✘", Style::RedBold, path);
    line.push("  ", Style::Plain);
    line.push(what, Style::Red);
    line.push(" ", Style::Plain);
    line.push(disk, Style::Red);
    line.push(" (expected ", Style::Plain);
    line.push(expected, Style::Dimmed);
    line.push(")", Style::Plain);
    line
}

/// Appends a line to a list.
fn push_line(out: &mut Vec<Line>, line: Line)
    ensures
        styled::lines(final(out)@) == styled::lines(old(out)@).push(line@),
{
    out.push(line);
    assert(styled::lines(out@) =~= styled::lines(old(out)@).push(line@));
}

fn push_kind(out: &mut Vec<Line>, kind: Kind, paths: &Vec<String>)
    ensures
        styled::lines(final(out)@) == styled::lines(old(out)@) + kind_lines(
            kind,
            text::texts(paths@),
        ),
{
    let ghost all = text::texts(paths@);
    let mut i: usize = 0;
    assert(styled::lines(old(out)@) + kind_lines(kind, all.take(0)) =~= styled::lines(old(out)@));
    while i < paths.len()
        invariant
            i <= paths.len(),
            all == text::texts(paths@),
            styled::lines(out@) == styled::lines(old(out)@) + kind_lines(
                kind,
                all.take(i as int),
            ),
        decreases paths.len() - i,
    {
        assert(paths@[i as int]@ == all[i as int]);
        push_line(out, line_of_kind(kind, &paths[i]));
        assert(styled::lines(out@) =~= styled::lines(old(out)@) + kind_lines(
            kind,
            all.take(i + 1),
        ));
        i += 1;
    }
    assert(all.take(all.len() as int) =~= all);
}

fn push_incomplete(out: &mut Vec<Line>, entries: &Vec<(String, u64, u64)>)
    ensures
        styled::lines(final(out)@) == styled::lines(old(out)@) + sized(entries@).map_values(
            |entry: (Seq<char>, u64, u64)| incomplete_line(entry),
        ),
{
    let ghost show = |entry: (Seq<char>, u64, u64)| incomplete_line(entry);
    let ghost all = sized(entries@);
    let mut i: usize = 0;
    assert(styled::lines(old(out)@) + all.take(0).map_values(show) =~= styled::lines(old(out)@));
    while i < entries.len()
        invariant
            i <= entries.len(),
            all == sized(entries@),
            show == (|entry: (Seq<char>, u64, u64)| incomplete_line(entry)),
            styled::lines(out@) == styled::lines(old(out)@) + all.take(i as int).map_values(show),
        decreases entries.len() - i,
    {
        let entry = &entries[i];
        assert((entry.0@, entry.1, entry.2) == all[i as int]);
        push_line(out, line_of_incomplete(&entry.0, entry.1, entry.2));
        assert(styled::lines(out@) =~= styled::lines(old(out)@) + all.take(i + 1).map_values(show));
        i += 1;
    }
    assert(all.take(all.len() as int) =~= all);
}

fn push_sizes(out: &mut Vec<Line>, entries: &Vec<(String, u64, u64)>)
    ensures
        styled::lines(final(out)@) == styled::lines(old(out)@) + sized(entries@).map_values(
            |entry: (Seq<char>, u64, u64)| size_line(entry),
        ),
{
    let ghost show = |entry: (Seq<char>, u64, u64)| size_line(entry);
    let ghost all = sized(entries@);
    let mut i: usize = 0;
    assert(styled::lines(old(out)@) + all.take(0).map_values(show) =~= styled::lines(old(out)@));
    while i < entries.len()
        invariant
            i <= entries.len(),
            all == sized(entries@),
            show == (|entry: (Seq<char>, u64, u64)| size_line(entry)),
            styled::lines(out@) == styled::lines(old(out)@) + all.take(i as int).map_values(show),
        decreases entries.len() - i,
    {
        let entry = &entries[i];
        assert((entry.0@, entry.1, entry.2) == all[i as int]);
        let line = line_of_unlike(
            &entry.0,
            "size",
            &display::format_size(entry.1),
            &display::format_size(entry.2),
        );
        push_line(out, line);
        assert(styled::lines(out@) =~= styled::lines(old(out)@) + all.take(i + 1).map_values(show));
        i += 1;
    }
    assert(all.take(all.len() as int) =~= all);
}

fn push_hashes(out: &mut Vec<Line>, entries: &Vec<(String, String, String)>)
    ensures
        styled::lines(final(out)@) == styled::lines(old(out)@) + hashed(entries@).map_values(
            |entry: (Seq<char>, Seq<char>, Seq<char>)| hash_line(entry),
        ),
{
    let ghost show = |entry: (Seq<char>, Seq<char>, Seq<char>)| hash_line(entry);
    let ghost all = hashed(entries@);
    let mut i: usize = 0;
    assert(styled::lines(old(out)@) + all.take(0).map_values(show) =~= styled::lines(old(out)@));
    while i < entries.len()
        invariant
            i <= entries.len(),
            all == hashed(entries@),
            show == (|entry: (Seq<char>, Seq<char>, Seq<char>)| hash_line(entry)),
            styled::lines(out@) == styled::lines(old(out)@) + all.take(i as int).map_values(show),
        decreases entries.len() - i,
    {
        let entry = &entries[i];
        assert((entry.0@, entry.1@, entry.2@) == all[i as int]);
        push_line(out, line_of_unlike(&entry.0, "md5", &entry.1, &entry.2));
        assert(styled::lines(out@) =~= styled::lines(old(out)@) + all.take(i + 1).map_values(show));
        i += 1;
    }
    assert(all.take(all.len() as int) =~= all);
}

impl CheckReport {
    /// The lines that the report is printed as: the findings by kind, then a
    /// one-line summary.
    pub fn print(&self) -> (r: Vec<Line>)
        requires
            self@.is_countable(),
        ensures
            styled::lines(r@) == report_lines(self@),
    {
        let mut out: Vec<Line> = Vec::new();
        push_kind(&mut out, Kind::Right, &self.ok);
        assert(styled::lines(out@) =~= kind_lines(Kind::Right, self@.ok));
        push_incomplete(&mut out, &self.incomplete);
        push_kind(&mut out, Kind::Missing, &self.missing);
        push_sizes(&mut out, &self.size_mismatch);
        push_hashes(&mut out, &self.md5_mismatch);
        push_kind(&mut out, Kind::Directory, &self.type_mismatch);
        push_kind(&mut out, Kind::Date, &self.date_mismatch);
        push_kind(&mut out, Kind::Extra, &self.extra);
        push_kind(&mut out, Kind::Note, &self.notes);
        let ghost findings = styled::lines(out@);
        push_line(&mut out, Line::new());
        let judged: usize = self.ok.len() + self.missing.len() + self.incomplete.len()
            + self.size_mismatch.len() + self.md5_mismatch.len() + self.type_mismatch.len();
        let mut tally = " checked ".to_owned();
        text::push_decimal(&mut tally, judged as u64);
        if judged == 1 {
            tally.append(" file: ");
        } else {
            tally.append(" files: ");
        }
        text::push_decimal(&mut tally, self.ok.len() as u64);
        tally.append(" ok, ");
        text::push_decimal(&mut tally, self.missing.len() as u64);
        tally.append(" missing, ");
        text::push_decimal(&mut tally, self.incomplete.len() as u64);
        tally.append(" incomplete, ");
        text::push_decimal(&mut tally, self.size_mismatch.len() as u64);
        tally.append(" size, ");
        text::push_decimal(&mut tally, self.md5_mismatch.len() as u64);
        tally.append(" md5, ");
        text::push_decimal(&mut tally, self.type_mismatch.len() as u64);
        tally.append(" type, ");
        text::push_decimal(&mut tally, self.date_mismatch.len() as u64);
        tally.append(" date⚠, ");
        text::push_decimal(&mut tally, self.extra.len() as u64);
        tally.append(" extra⚠");
        let mut line = Line::new();
        line.push("Σ", Style::Bold);
        line.push(&tally, Style::Plain);
        assert(judged == self@.judged());
        assert(tally@ == summary_line(self@)[1].0);
        assert(line@ =~= summary_line(self@));
        push_line(&mut out, line);
        assert(styled::lines(out@) =~= findings + seq![
            Seq::<(Seq<char>, Style)>::empty(),
            summary_line(self@),
        ]);
        out
    }
}

// ---------------------------------------------------------------------------
// What each list of a report says
// ---------------------------------------------------------------------------

/// Whether a walk found a path, as far as the file system tells names apart.
pub open spec fn is_listed(list: Seq<Seq<char>>, path: Seq<char>, case: PathCase) -> bool {
    exists|k: int|
        0 <= k < list.len() && plan::key_of(#[trigger] list[k], case) == plan::key_of(path, case)
}

/// A place that a check looks at: the task, what is on disk for it, and what
/// a walk found.
pub struct Spot {
    pub task: DownloadTask,
    pub probe: TaskProbe,
    pub files: Seq<Seq<char>>,
    pub dirs: Seq<Seq<char>>,
    pub output_dir: Seq<char>,
    pub verify_md5: bool,
    pub case: PathCase,
}

impl Spot {
    /// The path below the directory.
    pub open spec fn path(self) -> Seq<char> {
        relative(self.task.file_path@, self.output_dir)
    }

    /// A directory stands there.
    pub open spec fn is_dir(self) -> bool {
        is_listed(self.dirs, self.path(), self.case)
    }

    /// A file stands there.
    pub open spec fn is_file(self) -> bool {
        !self.is_dir() && is_listed(self.files, self.path(), self.case)
    }

    /// A partial file stands next to it.
    pub open spec fn has_part(self) -> bool {
        is_listed(self.files, self.path() + ".part"@, self.case)
    }

    /// A file stands there, could be read, and has the expected length.
    pub open spec fn has_size(self) -> bool {
        self.is_file() && (self.probe.file matches Ok(file) && (self.task.expected_size
            matches Some(size) ==> file.len == size))
    }

    /// The hash is looked at.
    pub open spec fn is_hashed(self) -> bool {
        self.verify_md5 && self.task.expected_md5 is Some
    }

    /// Nothing is wrong with the file that stands there.
    pub open spec fn is_right(self) -> bool {
        self.has_size() && (self.is_hashed() ==> (self.probe.file->Ok_0.hash matches HashProbe::Hash(
            hash,
        ) && text::lowered(hash@) == text::lowered(self.task.expected_md5->0@)))
    }

    /// It is missing: neither a directory, nor it, nor its partial file.
    pub open spec fn in_missing(self, p: Seq<char>) -> bool {
        p == self.path() && !self.is_dir() && !self.is_file() && !self.has_part()
    }

    /// Only its partial file is there.
    pub open spec fn in_incomplete(self, e: (Seq<char>, u64, u64)) -> bool {
        e.0 == self.path() && !self.is_dir() && !self.is_file() && self.has_part() && (
        match self.probe.part_len {
            Some(len) => e.1 == len,
            None => e.1 == 0,
        }) && (match self.task.expected_size {
            Some(size) => e.2 == size,
            None => e.2 == 0,
        })
    }

    /// It is there, could be read, and has another length than expected,
    /// whatever its hash.
    pub open spec fn in_size_mismatch(self, e: (Seq<char>, u64, u64)) -> bool {
        e.0 == self.path() && self.is_file() && (self.probe.file matches Ok(file) && file.len
            == e.1) && self.task.expected_size == Some(e.2) && e.1 != e.2
    }

    /// It has the expected length and another hash.
    pub open spec fn in_md5_mismatch(self, e: (Seq<char>, Seq<char>, Seq<char>)) -> bool {
        e.0 == self.path() && self.has_size() && self.is_hashed() && (self.probe.file->Ok_0.hash
            matches HashProbe::Hash(hash) && hash@ == e.1) && self.task.expected_md5->0@ == e.2
            && text::lowered(e.1) != text::lowered(e.2)
    }

    /// It is right, but for its time.
    pub open spec fn in_date_mismatch(self, p: Seq<char>) -> bool {
        p == self.path() && self.is_right() && self.task.expected_mtime is Some
            && self.probe.file->Ok_0.mtime is Some && self.task.expected_mtime
            != self.probe.file->Ok_0.mtime
    }

    /// It could not be read or hashed, or has no hash to compare with, and
    /// the report says so.
    pub open spec fn in_notes(self, note: Seq<char>) -> bool {
        self.is_file() && match self.probe.file {
            Err(reason) => note == "could not read "@ + self.path() + ": "@ + reason@,
            Ok(file) => self.has_size() && if self.is_hashed() {
                match file.hash {
                    HashProbe::NotUtf8 => note == "non-UTF-8 path "@ + text::quoted(self.path())
                        + "; hash not verified"@,
                    HashProbe::Failed(reason) => note == "could not hash "@ + self.path() + ": "@
                        + reason@,
                    _ => false,
                }
            } else {
                self.verify_md5 && note == "no MD5 in metadata for "@ + self.path()
                    + "; hash not verified"@
            },
        }
    }

    /// A request to stop came while it was hashed.
    pub open spec fn is_interrupted(self) -> bool {
        self.has_size() && self.is_hashed() && self.probe.file->Ok_0.hash is Interrupted
    }

    /// A partial file is left over next to the file, which could be read.
    pub open spec fn is_leftover(self, p: Seq<char>) -> bool {
        p == self.path() + ".part"@ && self.is_file() && self.probe.file is Ok && self.has_part()
    }
}

/// The spots of a check.
pub open spec fn spots(
    tasks: Seq<DownloadTask>,
    probes: Seq<TaskProbe>,
    files: Seq<Seq<char>>,
    dirs: Seq<Seq<char>>,
    output_dir: Seq<char>,
    verify_md5: bool,
    case: PathCase,
) -> Seq<Spot> {
    Seq::new(
        tasks.len(),
        |i: int|
            Spot {
                task: tasks[i],
                probe: probes[i],
                files,
                dirs,
                output_dir,
                verify_md5,
                case,
            },
    )
}

proof fn lemma_push_contains<A>(list: Seq<A>, a: A, b: A)
    ensures
        list.push(a).contains(b) <==> list.contains(b) || a == b,
{
    let all = list.push(a);
    if list.contains(b) {
        let i = choose|i: int| 0 <= i < list.len() && list[i] == b;
        assert(all[i] == b);
    }
    if a == b {
        assert(all[list.len() as int] == b);
    }
    if all.contains(b) {
        let i = choose|i: int| 0 <= i < all.len() && all[i] == b;
        if i < list.len() {
            assert(list[i] == b);
        }
    }
}

/// An entry that a report is asked for, one for each shape of list.
pub struct Asked {
    pub path: Seq<char>,
    pub note: Seq<char>,
    pub sized: (Seq<char>, u64, u64),
    pub hashed: (Seq<char>, Seq<char>, Seq<char>),
}

proof fn lemma_step_lists(before: ReportView, spot: Spot, asked: Asked)
    ensures
        ({
            let path = spot.path();
            let finding = found(
                spot.task,
                spot.probe,
                standing(path, spot.files, spot.dirs, spot.case),
                spot.verify_md5,
            );
            let after = before.with_finding(
                path,
                finding,
                lists(spot.files, plan::key_of(path + ".part"@, spot.case), spot.case),
            );
            finding !is Interrupted ==> {
                &&& after.missing.contains(asked.path) <==> before.missing.contains(asked.path)
                    || spot.in_missing(asked.path)
                &&& after.incomplete.contains(asked.sized) <==> before.incomplete.contains(
                    asked.sized,
                ) || spot.in_incomplete(asked.sized)
                &&& after.size_mismatch.contains(asked.sized) <==> before.size_mismatch.contains(
                    asked.sized,
                ) || spot.in_size_mismatch(asked.sized)
                &&& after.md5_mismatch.contains(asked.hashed) <==> before.md5_mismatch.contains(
                    asked.hashed,
                ) || spot.in_md5_mismatch(asked.hashed)
                &&& after.type_mismatch.contains(asked.path) <==> before.type_mismatch.contains(
                    asked.path,
                ) || (asked.path == path && spot.is_dir())
                &&& after.date_mismatch.contains(asked.path) <==> before.date_mismatch.contains(
                    asked.path,
                ) || spot.in_date_mismatch(asked.path)
                &&& after.ok.contains(asked.path) <==> before.ok.contains(asked.path) || (asked.path
                    == path && spot.is_right())
                &&& after.extra.contains(asked.path) <==> before.extra.contains(asked.path)
                    || spot.is_leftover(asked.path)
                &&& after.notes.contains(asked.note) <==> before.notes.contains(asked.note)
                    || spot.in_notes(asked.note)
            }
        }),
        spot.is_interrupted() <==> found(
            spot.task,
            spot.probe,
            standing(spot.path(), spot.files, spot.dirs, spot.case),
            spot.verify_md5,
        ) is Interrupted,
{
    let path = spot.path();
    let place = standing(path, spot.files, spot.dirs, spot.case);
    let key = plan::key_of(path, spot.case);
    let part_key = plan::key_of(path + ".part"@, spot.case);
    assert(lists(spot.dirs, key, spot.case) == spot.is_dir());
    assert(lists(spot.files, key, spot.case) == is_listed(spot.files, path, spot.case));
    assert(lists(spot.files, part_key, spot.case) == spot.has_part());
    let finding = found(spot.task, spot.probe, place, spot.verify_md5);
    lemma_push_contains(before.missing, path, asked.path);
    lemma_push_contains(before.type_mismatch, path, asked.path);
    lemma_push_contains(before.date_mismatch, path, asked.path);
    lemma_push_contains(before.ok, path, asked.path);
    lemma_push_contains(before.extra, path + ".part"@, asked.path);
    match finding {
        FindingView::Unreadable { reason } => {
            lemma_push_contains(
                before.notes,
                "could not read "@ + path + ": "@ + reason,
                asked.note,
            );
        },
        FindingView::Unhashed => {
            lemma_push_contains(
                before.notes,
                "non-UTF-8 path "@ + text::quoted(path) + "; hash not verified"@,
                asked.note,
            );
        },
        FindingView::HashFailed { reason } => {
            lemma_push_contains(
                before.notes,
                "could not hash "@ + path + ": "@ + reason,
                asked.note,
            );
        },
        _ => {
            lemma_push_contains(
                before.notes,
                "no MD5 in metadata for "@ + path + "; hash not verified"@,
                asked.note,
            );
        },
    }
    if let FindingView::Incomplete { have, expected } = finding {
        lemma_push_contains(before.incomplete, (path, have, expected), asked.sized);
    }
    if let FindingView::WrongSize { disk, expected } = finding {
        lemma_push_contains(before.size_mismatch, (path, disk, expected), asked.sized);
    }
    if let FindingView::WrongHash { disk, expected } = finding {
        lemma_push_contains(before.md5_mismatch, (path, disk, expected), asked.hashed);
    }
}

/// What a report says of the planned files, for an entry that it is asked
/// for.
pub open spec fn lists_agree(
    report: ReportView,
    start: ReportView,
    all: Seq<Spot>,
    asked: Asked,
) -> bool {
    &&& report.missing.contains(asked.path) <==> start.missing.contains(asked.path) || exists|
        i: int,
    | 0 <= i < all.len() && (#[trigger] all[i]).in_missing(asked.path)
    &&& report.incomplete.contains(asked.sized) <==> start.incomplete.contains(asked.sized)
        || exists|i: int| 0 <= i < all.len() && (#[trigger] all[i]).in_incomplete(asked.sized)
    &&& report.size_mismatch.contains(asked.sized) <==> start.size_mismatch.contains(asked.sized)
        || exists|i: int| 0 <= i < all.len() && (#[trigger] all[i]).in_size_mismatch(asked.sized)
    &&& report.md5_mismatch.contains(asked.hashed) <==> start.md5_mismatch.contains(asked.hashed)
        || exists|i: int| 0 <= i < all.len() && (#[trigger] all[i]).in_md5_mismatch(asked.hashed)
    &&& report.type_mismatch.contains(asked.path) <==> start.type_mismatch.contains(asked.path)
        || exists|i: int|
        0 <= i < all.len() && asked.path == (#[trigger] all[i]).path() && all[i].is_dir()
    &&& report.date_mismatch.contains(asked.path) <==> start.date_mismatch.contains(asked.path)
        || exists|i: int| 0 <= i < all.len() && (#[trigger] all[i]).in_date_mismatch(asked.path)
    &&& report.ok.contains(asked.path) <==> start.ok.contains(asked.path) || exists|i: int|
        0 <= i < all.len() && asked.path == (#[trigger] all[i]).path() && all[i].is_right()
    &&& report.extra.contains(asked.path) <==> start.extra.contains(asked.path) || exists|i: int|
        0 <= i < all.len() && (#[trigger] all[i]).is_leftover(asked.path)
    &&& report.notes.contains(asked.note) <==> start.notes.contains(asked.note) || exists|i: int|
        0 <= i < all.len() && (#[trigger] all[i]).in_notes(asked.note)
}

proof fn lemma_tasks_lists(
    start: ReportView,
    tasks: Seq<DownloadTask>,
    probes: Seq<TaskProbe>,
    files: Seq<Seq<char>>,
    dirs: Seq<Seq<char>>,
    output_dir: Seq<char>,
    verify_md5: bool,
    case: PathCase,
    asked: Asked,
)
    requires
        probes.len() == tasks.len(),
        tasks_report(start, tasks, probes, files, dirs, output_dir, verify_md5, case) is Some,
    ensures
        lists_agree(
            tasks_report(start, tasks, probes, files, dirs, output_dir, verify_md5, case)->0,
            start,
            spots(tasks, probes, files, dirs, output_dir, verify_md5, case),
            asked,
        ),
    decreases tasks.len(),
{
    if tasks.len() > 0 {
        let t = tasks.drop_last();
        let p = probes.drop_last();
        lemma_tasks_lists(start, t, p, files, dirs, output_dir, verify_md5, case, asked);
        let before = tasks_report(start, t, p, files, dirs, output_dir, verify_md5, case)->0;
        let some = spots(t, p, files, dirs, output_dir, verify_md5, case);
        let all = spots(tasks, probes, files, dirs, output_dir, verify_md5, case);
        let spot = all.last();
        assert(all =~= some.push(spot));
        lemma_step_lists(before, spot, asked);
        lemma_exists_push(all, some, spot, asked);
    }
}

proof fn lemma_exists_push(all: Seq<Spot>, some: Seq<Spot>, spot: Spot, asked: Asked)
    requires
        all == some.push(spot),
    ensures
        (exists|i: int| 0 <= i < all.len() && (#[trigger] all[i]).in_missing(asked.path)) <==> ((
        exists|i: int| 0 <= i < some.len() && (#[trigger] some[i]).in_missing(asked.path))
            || spot.in_missing(asked.path)),
        (exists|i: int| 0 <= i < all.len() && (#[trigger] all[i]).in_incomplete(asked.sized)) <==> (
        (exists|i: int| 0 <= i < some.len() && (#[trigger] some[i]).in_incomplete(asked.sized))
            || spot.in_incomplete(asked.sized)),
        (exists|i: int| 0 <= i < all.len() && (#[trigger] all[i]).in_size_mismatch(asked.sized))
            <==> ((exists|i: int|
            0 <= i < some.len() && (#[trigger] some[i]).in_size_mismatch(asked.sized))
            || spot.in_size_mismatch(asked.sized)),
        (exists|i: int| 0 <= i < all.len() && (#[trigger] all[i]).in_md5_mismatch(asked.hashed))
            <==> ((exists|i: int|
            0 <= i < some.len() && (#[trigger] some[i]).in_md5_mismatch(asked.hashed))
            || spot.in_md5_mismatch(asked.hashed)),
        (exists|i: int|
            0 <= i < all.len() && asked.path == (#[trigger] all[i]).path() && all[i].is_dir()) <==> (
        (exists|i: int|
            0 <= i < some.len() && asked.path == (#[trigger] some[i]).path() && some[i].is_dir())
            || (asked.path == spot.path() && spot.is_dir())),
        (exists|i: int| 0 <= i < all.len() && (#[trigger] all[i]).in_date_mismatch(asked.path))
            <==> ((exists|i: int|
            0 <= i < some.len() && (#[trigger] some[i]).in_date_mismatch(asked.path))
            || spot.in_date_mismatch(asked.path)),
        (exists|i: int|
            0 <= i < all.len() && asked.path == (#[trigger] all[i]).path() && all[i].is_right())
            <==> ((exists|i: int|
            0 <= i < some.len() && asked.path == (#[trigger] some[i]).path() && some[i].is_right())
            || (asked.path == spot.path() && spot.is_right())),
        (exists|i: int| 0 <= i < all.len() && (#[trigger] all[i]).is_leftover(asked.path)) <==> ((
        exists|i: int| 0 <= i < some.len() && (#[trigger] some[i]).is_leftover(asked.path))
            || spot.is_leftover(asked.path)),
        (exists|i: int| 0 <= i < all.len() && (#[trigger] all[i]).in_notes(asked.note)) <==> ((
        exists|i: int| 0 <= i < some.len() && (#[trigger] some[i]).in_notes(asked.note))
            || spot.in_notes(asked.note)),
{
    assert forall|i: int| 0 <= i < some.len() implies #[trigger] some[i] == all[i] by {}
    assert forall|i: int| 0 <= i < some.len() implies some[i] == #[trigger] all[i] by {}
    assert(all[some.len() as int] == spot);
}

/// Whether a planned file accounts for a path: it is the file itself, or the
/// file with `.part` behind it.
pub open spec fn is_planned(path: Seq<char>, all: Seq<Spot>, case: PathCase) -> bool {
    exists|i: int|
        0 <= i < all.len() && (plan::key_of((#[trigger] all[i]).path(), case) == plan::key_of(
            path,
            case,
        ) || (".part"@.is_suffix_of(path) && plan::key_of(all[i].path(), case) == plan::key_of(
            path.take(path.len() - 5),
            case,
        )))
}

proof fn lemma_accounted(
    path: Seq<char>,
    tasks: Seq<DownloadTask>,
    all: Seq<Spot>,
    output_dir: Seq<char>,
    metadata: Option<Seq<char>>,
    case: PathCase,
)
    requires
        all.len() == tasks.len(),
        forall|i: int|
            0 <= i < all.len() ==> (#[trigger] all[i]).path() == relative(
                tasks[i].file_path@,
                output_dir,
            ),
    ensures
        is_accounted_for(path, expected_paths(tasks, output_dir), metadata, case) <==> is_planned(
            path,
            all,
            case,
        ) || (metadata matches Some(name) && plan::key_of(path, case) == plan::key_of(name, case)),
{
    reveal_strlit(".part");
    let expected = expected_paths(tasks, output_dir);
    assert forall|i: int| 0 <= i < all.len() implies (#[trigger] all[i]).path()
        == expected[i] by {}
    assert forall|i: int| 0 <= i < all.len() implies all[i].path() == #[trigger] expected[i] by {}
    if lists(expected, plan::key_of(path, case), case) {
        let i = choose|i: int|
            0 <= i < expected.len() && plan::key_of(#[trigger] expected[i], case) == plan::key_of(
                path,
                case,
            );
        assert(plan::key_of(all[i].path(), case) == plan::key_of(path, case));
    }
    if ".part"@.is_suffix_of(path) && lists(
        expected,
        plan::key_of(path.take(path.len() - 5), case),
        case,
    ) {
        let i = choose|i: int|
            0 <= i < expected.len() && plan::key_of(#[trigger] expected[i], case) == plan::key_of(
                path.take(path.len() - 5),
                case,
            );
        assert(plan::key_of(all[i].path(), case) == plan::key_of(path.take(path.len() - 5), case));
    }
    if is_planned(path, all, case) {
        let i = choose|i: int|
            0 <= i < all.len() && (plan::key_of((#[trigger] all[i]).path(), case) == plan::key_of(
                path,
                case,
            ) || (".part"@.is_suffix_of(path) && plan::key_of(all[i].path(), case) == plan::key_of(
                path.take(path.len() - 5),
                case,
            )));
        assert(expected[i] == all[i].path());
    }
}

proof fn lemma_filter_contains(
    list: Seq<Seq<char>>,
    keep: spec_fn(Seq<char>) -> bool,
    path: Seq<char>,
)
    ensures
        list.filter(keep).contains(path) <==> list.contains(path) && keep(path),
    decreases list.len(),
{
    reveal(Seq::filter);
    if list.len() > 0 {
        let head = list.drop_last();
        lemma_filter_contains(head, keep, path);
        assert(list =~= head.push(list.last()));
        lemma_push_contains(head, list.last(), path);
        lemma_push_contains(head.filter(keep), list.last(), path);
    }
}

/// What each list of a report holds, and nothing else: the planned files of
/// which it is true on disk. A file is missing exactly where neither it, nor
/// its partial file, nor a directory stands in its place; one that is there
/// with another length is of the wrong size, whatever its hash; and so on.
/// The metadata document of a whole item is missing where it was not found.
/// What is extra is a partial file next to its file, a file that no planned
/// one accounts for, and a directory that no found or planned file is below.
pub proof fn reports_say_what_is_on_disk(
    tasks: Seq<DownloadTask>,
    probes: Seq<TaskProbe>,
    files: Seq<Seq<char>>,
    dirs: Seq<Seq<char>>,
    metadata: Option<Seq<char>>,
    output_dir: Seq<char>,
    verify_md5: bool,
    case: PathCase,
    asked: Asked,
)
    requires
        probes.len() == tasks.len(),
        directory_report(
            tasks,
            probes,
            files,
            dirs,
            metadata,
            output_dir,
            verify_md5,
            case,
        ) is Some,
    ensures
        ({
            let report = directory_report(
                tasks,
                probes,
                files,
                dirs,
                metadata,
                output_dir,
                verify_md5,
                case,
            )->0;
            let all = spots(tasks, probes, files, dirs, output_dir, verify_md5, case);
            &&& report.missing.contains(asked.path) <==> (metadata == Some(asked.path)
                && !is_listed(files, asked.path, case)) || exists|i: int|
                0 <= i < all.len() && (#[trigger] all[i]).in_missing(asked.path)
            &&& report.incomplete.contains(asked.sized) <==> exists|i: int|
                0 <= i < all.len() && (#[trigger] all[i]).in_incomplete(asked.sized)
            &&& report.size_mismatch.contains(asked.sized) <==> exists|i: int|
                0 <= i < all.len() && (#[trigger] all[i]).in_size_mismatch(asked.sized)
            &&& report.md5_mismatch.contains(asked.hashed) <==> exists|i: int|
                0 <= i < all.len() && (#[trigger] all[i]).in_md5_mismatch(asked.hashed)
            &&& report.type_mismatch.contains(asked.path) <==> exists|i: int|
                0 <= i < all.len() && asked.path == (#[trigger] all[i]).path() && all[i].is_dir()
            &&& report.date_mismatch.contains(asked.path) <==> exists|i: int|
                0 <= i < all.len() && (#[trigger] all[i]).in_date_mismatch(asked.path)
            &&& report.ok.contains(asked.path) <==> exists|i: int|
                0 <= i < all.len() && asked.path == (#[trigger] all[i]).path() && all[i].is_right()
            &&& report.notes.contains(asked.note) <==> exists|i: int|
                0 <= i < all.len() && (#[trigger] all[i]).in_notes(asked.note)
            &&& report.extra.contains(asked.path) <==> {
                ||| exists|i: int| 0 <= i < all.len() && (#[trigger] all[i]).is_leftover(asked.path)
                ||| files.contains(asked.path) && !is_planned(asked.path, all, case) && !(metadata
                    matches Some(name) && plan::key_of(asked.path, case) == plan::key_of(
                    name,
                    case,
                ))
                ||| dirs.contains(asked.path) && !(exists|k: int|
                    0 <= k < files.len() && (asked.path + "/"@).is_prefix_of(#[trigger] files[k]))
                    && !(exists|i: int|
                    0 <= i < all.len() && (asked.path + "/"@).is_prefix_of(
                        (#[trigger] all[i]).path(),
                    ))
            }
        }),
{
    let start = if metadata is Some && !lists(files, plan::key_of(metadata->0, case), case) {
        ReportView { missing: seq![metadata->0], ..empty_report() }
    } else {
        empty_report()
    };
    let all = spots(tasks, probes, files, dirs, output_dir, verify_md5, case);
    let expected = expected_paths(tasks, output_dir);
    lemma_tasks_lists(
        start,
        tasks,
        probes,
        files,
        dirs,
        output_dir,
        verify_md5,
        case,
        asked,
    );
    assert(start.missing.contains(asked.path) <==> metadata == Some(asked.path) && !is_listed(
        files,
        asked.path,
        case,
    )) by {
        if metadata == Some(asked.path) && !is_listed(files, asked.path, case) {
            assert(!lists(files, plan::key_of(asked.path, case), case));
            assert(start.missing[0] == asked.path);
        }
    }
    assert forall|i: int| 0 <= i < all.len() implies (#[trigger] all[i]).path() == relative(
        tasks[i].file_path@,
        output_dir,
    ) by {}
    lemma_accounted(asked.path, tasks, all, output_dir, metadata, case);
    lemma_filter_contains(
        files,
        |path: Seq<char>| !is_accounted_for(path, expected, metadata, case),
        asked.path,
    );
    lemma_filter_contains(
        dirs,
        |dir: Seq<char>| !any_below(files, dir) && !any_below(expected, dir),
        asked.path,
    );
    assert(any_below(expected, asked.path) <==> exists|i: int|
        0 <= i < all.len() && (asked.path + "/"@).is_prefix_of((#[trigger] all[i]).path())) by {
        assert forall|i: int| 0 <= i < all.len() implies (#[trigger] all[i]).path()
            == expected[i] by {}
        assert forall|i: int| 0 <= i < all.len() implies all[i].path()
            == #[trigger] expected[i] by {}
        if any_below(expected, asked.path) {
            let i = choose|i: int|
                0 <= i < expected.len() && (asked.path + "/"@).is_prefix_of(#[trigger] expected[i]);
            assert((asked.path + "/"@).is_prefix_of(all[i].path()));
        }
        if exists|i: int|
            0 <= i < all.len() && (asked.path + "/"@).is_prefix_of((#[trigger] all[i]).path()) {
            let i = choose|i: int|
                0 <= i < all.len() && (asked.path + "/"@).is_prefix_of((#[trigger] all[i]).path());
            assert((asked.path + "/"@).is_prefix_of(expected[i]));
        }
    }
    let judged = tasks_report(
        start,
        tasks,
        probes,
        files,
        dirs,
        output_dir,
        verify_md5,
        case,
    )->0;
    let a = extra_files(files, expected, metadata, case);
    let b = extra_dirs(dirs, files, expected);
    lemma_add_contains(judged.extra, a, asked.path);
    lemma_add_contains(judged.extra + a, b, asked.path);
}

proof fn lemma_add_contains(a: Seq<Seq<char>>, b: Seq<Seq<char>>, path: Seq<char>)
    ensures
        (a + b).contains(path) <==> a.contains(path) || b.contains(path),
{
    let all = a + b;
    if a.contains(path) {
        let i = choose|i: int| 0 <= i < a.len() && a[i] == path;
        assert(all[i] == path);
    }
    if b.contains(path) {
        let i = choose|i: int| 0 <= i < b.len() && b[i] == path;
        assert(all[i + a.len()] == path);
    }
    if all.contains(path) {
        let i = choose|i: int| 0 <= i < all.len() && all[i] == path;
        if i < a.len() {
            assert(a[i] == path);
        } else {
            assert(b[i - a.len()] == path);
        }
    }
}

/// A check ends without a report exactly where the user asked to stop while
/// a file was hashed.
pub proof fn checks_end_early_when_interrupted(
    tasks: Seq<DownloadTask>,
    probes: Seq<TaskProbe>,
    files: Seq<Seq<char>>,
    dirs: Seq<Seq<char>>,
    metadata: Option<Seq<char>>,
    output_dir: Seq<char>,
    verify_md5: bool,
    case: PathCase,
)
    requires
        probes.len() == tasks.len(),
    ensures
        directory_report(
            tasks,
            probes,
            files,
            dirs,
            metadata,
            output_dir,
            verify_md5,
            case,
        ) is None <==> exists|i: int|
            0 <= i < tasks.len() && (#[trigger] spots(
                tasks,
                probes,
                files,
                dirs,
                output_dir,
                verify_md5,
                case,
            )[i]).is_interrupted(),
{
    let start = if metadata is Some && !lists(files, plan::key_of(metadata->0, case), case) {
        ReportView { missing: seq![metadata->0], ..empty_report() }
    } else {
        empty_report()
    };
    lemma_interruptions(start, tasks, probes, files, dirs, output_dir, verify_md5, case);
}

proof fn lemma_interruptions(
    start: ReportView,
    tasks: Seq<DownloadTask>,
    probes: Seq<TaskProbe>,
    files: Seq<Seq<char>>,
    dirs: Seq<Seq<char>>,
    output_dir: Seq<char>,
    verify_md5: bool,
    case: PathCase,
)
    requires
        probes.len() == tasks.len(),
    ensures
        tasks_report(start, tasks, probes, files, dirs, output_dir, verify_md5, case) is None
            <==> exists|i: int|
            0 <= i < tasks.len() && (#[trigger] spots(
                tasks,
                probes,
                files,
                dirs,
                output_dir,
                verify_md5,
                case,
            )[i]).is_interrupted(),
    decreases tasks.len(),
{
    let all = spots(tasks, probes, files, dirs, output_dir, verify_md5, case);
    if tasks.len() > 0 {
        let t = tasks.drop_last();
        let p = probes.drop_last();
        let some = spots(t, p, files, dirs, output_dir, verify_md5, case);
        lemma_interruptions(start, t, p, files, dirs, output_dir, verify_md5, case);
        assert forall|i: int| 0 <= i < some.len() implies #[trigger] some[i] == all[i] by {}
        assert forall|i: int| 0 <= i < some.len() implies some[i] == #[trigger] all[i] by {}
        let n = some.len() as int;
        assert(all[n].task == tasks.last() && all[n].probe == probes.last());
        let asked = Asked {
            path: Seq::empty(),
            note: Seq::empty(),
            sized: (Seq::empty(), 0, 0),
            hashed: (Seq::empty(), Seq::empty(), Seq::empty()),
        };
        lemma_step_lists(start, all[n], asked);
    }
}

/// What fails a check is counted: everything missing, incomplete, of the
/// wrong size, hash or type; and in a strict check what differs in time or is
/// extra.
pub proof fn failures_are_counted(report: ReportView)
    ensures
        report.failing(false) == report.missing.len() + report.incomplete.len()
            + report.size_mismatch.len() + report.md5_mismatch.len() + report.type_mismatch.len(),
        report.failing(true) == report.failing(false) + report.date_mismatch.len()
            + report.extra.len(),
{
}

/// A path is looked for below the directory that is checked.
pub proof fn paths_are_looked_for_below(path: Seq<char>, prefix: Seq<char>, name: Seq<char>)
    ensures
        relative(prefix + "/"@ + name, prefix) == (if prefix.len() > 0 {
            name
        } else {
            prefix + "/"@ + name
        }),
        relative(path, Seq::empty()) == path,
        prefix.len() > 0 ==> walked(prefix, name) == prefix + "/"@ + name,
        walked(Seq::empty(), name) == name,
{
    if prefix.len() > 0 {
        relative_undoes_below(name, prefix);
    }
}

// ---------------------------------------------------------------------------
// What a shown report promises
// ---------------------------------------------------------------------------

/// A report is shown list by list, with one line for each finding: first
/// what is right, then what is incomplete, missing, of the wrong size, hash
/// or type, of another time, extra, and the notes. Each line names the file
/// and what was found of it. An empty line and the summary close it.
#[verifier::rlimit(40)]
pub proof fn reports_show_every_finding(report: ReportView, i: int)
    requires
        0 <= i,
    ensures
        ({
            let shown = report_lines(report);
            let incomplete = report.ok.len() as int;
            let missing = incomplete + report.incomplete.len();
            let size = missing + report.missing.len();
            let hash = size + report.size_mismatch.len();
            let dir = hash + report.md5_mismatch.len();
            let date = dir + report.type_mismatch.len();
            let extra = date + report.date_mismatch.len();
            let note = extra + report.extra.len();
            let end = note + report.notes.len();
            &&& shown.len() == end + 2
            &&& shown[end].len() == 0
            &&& i < report.ok.len() ==> shown[i][0].0 == "✔"@ && shown[i][2].0 == report.ok[i]
                && shown[i].len() == 3
            &&& i < report.incomplete.len() ==> {
                let line = shown[incomplete + i];
                &&& line[0].0 == "…"@
                &&& line[2].0 == report.incomplete[i].0
                &&& line[4].0 == "incomplete"@
                &&& line[6].0 == display::size_words(report.incomplete[i].1 as nat)
                &&& line[8].0 == display::size_words(report.incomplete[i].2 as nat)
            }
            &&& i < report.missing.len() ==> shown[missing + i][0].0 == "✘"@ && shown[missing
                + i][2].0 == report.missing[i] && shown[missing + i][4].0 == "missing"@
            &&& i < report.size_mismatch.len() ==> {
                let line = shown[size + i];
                &&& line[0].0 == "✘"@
                &&& line[2].0 == report.size_mismatch[i].0
                &&& line[4].0 == "size"@
                &&& line[6].0 == display::size_words(report.size_mismatch[i].1 as nat)
                &&& line[8].0 == display::size_words(report.size_mismatch[i].2 as nat)
            }
            &&& i < report.md5_mismatch.len() ==> {
                let line = shown[hash + i];
                &&& line[0].0 == "✘"@
                &&& line[2].0 == report.md5_mismatch[i].0
                &&& line[4].0 == "md5"@
                &&& line[6].0 == report.md5_mismatch[i].1
                &&& line[8].0 == report.md5_mismatch[i].2
            }
            &&& i < report.type_mismatch.len() ==> shown[dir + i][0].0 == "✘"@ && shown[dir
                + i][2].0 == report.type_mismatch[i] && shown[dir + i][4].0
                == "a directory occupies this file path"@
            &&& i < report.date_mismatch.len() ==> shown[date + i][0].0 == "▲"@ && shown[date
                + i][2].0 == report.date_mismatch[i] && shown[date + i][4].0
                == "last-modified time differs"@
            &&& i < report.extra.len() ==> shown[extra + i][0].0 == "⚠"@ && shown[extra
                + i][2].0 == "extra "@ + report.extra[i]
            &&& i < report.notes.len() ==> shown[note + i][0].0 == "ℹ"@ && shown[note + i][2].0
                == report.notes[i]
        }),
{
    let shown = report_lines(report);
    let incomplete = report.ok.len() as int;
    let missing = incomplete + report.incomplete.len();
    let size = missing + report.missing.len();
    let hash = size + report.size_mismatch.len();
    let dir = hash + report.md5_mismatch.len();
    let date = dir + report.type_mismatch.len();
    let extra = date + report.date_mismatch.len();
    let note = extra + report.extra.len();
    let end = note + report.notes.len();
    assert(shown[end] == Seq::<(Seq<char>, Style)>::empty());
    if i < report.ok.len() {
        assert(shown[i] == kind_line(Kind::Right, report.ok[i]));
    }
    if i < report.incomplete.len() {
        assert(shown[incomplete + i] == incomplete_line(report.incomplete[i]));
    }
    if i < report.missing.len() {
        assert(shown[missing + i] == kind_line(Kind::Missing, report.missing[i]));
    }
    if i < report.size_mismatch.len() {
        assert(shown[size + i] == size_line(report.size_mismatch[i]));
    }
    if i < report.md5_mismatch.len() {
        assert(shown[hash + i] == hash_line(report.md5_mismatch[i]));
    }
    if i < report.type_mismatch.len() {
        assert(shown[dir + i] == kind_line(Kind::Directory, report.type_mismatch[i]));
    }
    if i < report.date_mismatch.len() {
        assert(shown[date + i] == kind_line(Kind::Date, report.date_mismatch[i]));
    }
    if i < report.extra.len() {
        assert(shown[extra + i] == kind_line(Kind::Extra, report.extra[i]));
    }
    if i < report.notes.len() {
        assert(shown[note + i] == kind_line(Kind::Note, report.notes[i]));
    }
}

/// The summary says how many files were judged, and how long each list is.
pub proof fn summaries_count_every_list(report: ReportView)
    ensures
        ({
            let judged = report.ok.len() + report.missing.len() + report.incomplete.len()
                + report.size_mismatch.len() + report.md5_mismatch.len()
                + report.type_mismatch.len();
            report_lines(report).last().last().0 == " checked "@ + text::decimal(judged) + (
            if judged == 1 {
                " file: "@
            } else {
                " files: "@
            }) + text::decimal(report.ok.len()) + " ok, "@ + text::decimal(report.missing.len())
                + " missing, "@ + text::decimal(report.incomplete.len()) + " incomplete, "@
                + text::decimal(report.size_mismatch.len()) + " size, "@ + text::decimal(
                report.md5_mismatch.len(),
            ) + " md5, "@ + text::decimal(report.type_mismatch.len()) + " type, "@ + text::decimal(
                report.date_mismatch.len(),
            ) + " date⚠, "@ + text::decimal(report.extra.len()) + " extra⚠"@
        }),
{
    assert(report_lines(report).last() == summary_line(report));
    assert(summary_line(report).last() == summary_line(report)[1]);
}

/// The lists of a report are in the order of the tasks: one task more leaves
/// what they hold in front of what it adds, and it adds one finding to one
/// list at most, but for a partial file, a note and a time beside it.
pub proof fn reports_grow_file_by_file(
    start: ReportView,
    tasks: Seq<DownloadTask>,
    probes: Seq<TaskProbe>,
    task: DownloadTask,
    probe: TaskProbe,
    files: Seq<Seq<char>>,
    dirs: Seq<Seq<char>>,
    output_dir: Seq<char>,
    verify_md5: bool,
    case: PathCase,
)
    requires
        tasks.len() == probes.len(),
        tasks_report(
            start,
            tasks.push(task),
            probes.push(probe),
            files,
            dirs,
            output_dir,
            verify_md5,
            case,
        ) is Some,
    ensures
        tasks_report(start, tasks, probes, files, dirs, output_dir, verify_md5, case) is Some,
        tasks_report(
            start,
            Seq::empty(),
            Seq::empty(),
            files,
            dirs,
            output_dir,
            verify_md5,
            case,
        ) == Some(start),
        ({
            let before = tasks_report(
                start,
                tasks,
                probes,
                files,
                dirs,
                output_dir,
                verify_md5,
                case,
            )->0;
            let after = tasks_report(
                start,
                tasks.push(task),
                probes.push(probe),
                files,
                dirs,
                output_dir,
                verify_md5,
                case,
            )->0;
            &&& before.ok.is_prefix_of(after.ok)
            &&& before.missing.is_prefix_of(after.missing)
            &&& before.incomplete.is_prefix_of(after.incomplete)
            &&& before.size_mismatch.is_prefix_of(after.size_mismatch)
            &&& before.md5_mismatch.is_prefix_of(after.md5_mismatch)
            &&& before.type_mismatch.is_prefix_of(after.type_mismatch)
            &&& before.date_mismatch.is_prefix_of(after.date_mismatch)
            &&& before.extra.is_prefix_of(after.extra)
            &&& before.notes.is_prefix_of(after.notes)
            &&& before.judged() <= after.judged() <= before.judged() + 1
            &&& after.extra.len() <= before.extra.len() + 1
            &&& after.notes.len() <= before.notes.len() + 1
            &&& after.date_mismatch.len() <= before.date_mismatch.len() + 1
        }),
{
    assert(tasks.push(task).drop_last() =~= tasks);
    assert(probes.push(probe).drop_last() =~= probes);
    let before = tasks_report(start, tasks, probes, files, dirs, output_dir, verify_md5, case)->0;
    let path = relative(task.file_path@, output_dir);
    let finding = found(task, probe, standing(path, files, dirs, case), verify_md5);
    let has_part = lists(files, plan::key_of(path + ".part"@, case), case);
    lemma_findings_are_added(before, path, finding, has_part);
}

proof fn lemma_findings_are_added(
    before: ReportView,
    path: Seq<char>,
    finding: FindingView,
    has_part: bool,
)
    ensures
        ({
            let after = before.with_finding(path, finding, has_part);
            &&& before.ok.is_prefix_of(after.ok)
            &&& before.missing.is_prefix_of(after.missing)
            &&& before.incomplete.is_prefix_of(after.incomplete)
            &&& before.size_mismatch.is_prefix_of(after.size_mismatch)
            &&& before.md5_mismatch.is_prefix_of(after.md5_mismatch)
            &&& before.type_mismatch.is_prefix_of(after.type_mismatch)
            &&& before.date_mismatch.is_prefix_of(after.date_mismatch)
            &&& before.extra.is_prefix_of(after.extra)
            &&& before.notes.is_prefix_of(after.notes)
        }),
{
    let after = before.with_finding(path, finding, has_part);
    assert(after.ok.take(before.ok.len() as int) =~= before.ok);
    assert(after.missing.take(before.missing.len() as int) =~= before.missing);
    assert(after.incomplete.take(before.incomplete.len() as int) =~= before.incomplete);
    assert(after.size_mismatch.take(before.size_mismatch.len() as int) =~= before.size_mismatch);
    assert(after.md5_mismatch.take(before.md5_mismatch.len() as int) =~= before.md5_mismatch);
    assert(after.type_mismatch.take(before.type_mismatch.len() as int) =~= before.type_mismatch);
    assert(after.date_mismatch.take(before.date_mismatch.len() as int) =~= before.date_mismatch);
    assert(after.extra.take(before.extra.len() as int) =~= before.extra);
    assert(after.notes.take(before.notes.len() as int) =~= before.notes);
}

} // verus!
