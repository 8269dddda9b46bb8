//! From an archive's metadata to a download plan: which files are wanted,
//! where each comes from and is stored, and which would overwrite another.

use crate::archive_metadata::{xml_file_name_of, ArchiveTarget, XmlFile};
use crate::downloader::DownloadTask;
use crate::error::IaGetError;
use crate::filename;
use crate::filename::sanitize_filename;
use crate::link;
use crate::link::Link;
use crate::percent;
use crate::percent::encode_download_path;
use crate::styled;
use crate::styled::{Line, Style};
use crate::text;
use vstd::hash_map::StringHashMap;
use vstd::prelude::*;

verus! {

// ---------------------------------------------------------------------------
// Selecting files
// ---------------------------------------------------------------------------

/// The files that do not bear the metadata's own name.
pub open spec fn without_metadata(files: Seq<XmlFile>, xml_file_name: Seq<char>) -> Seq<XmlFile> {
    files.filter(|file: XmlFile| file.name@ != xml_file_name)
}

/// Leaves out the entry for the metadata itself, whose checksum, time and
/// size are unreliable.
pub fn files_to_download(files: Vec<XmlFile>, xml_file_name: &str) -> (r: Vec<XmlFile>)
    ensures
        r@ == without_metadata(files@, xml_file_name@),
{
    let mut kept: Vec<XmlFile> = Vec::new();
    let ghost all = files@;
    proof {
        reveal(Seq::filter);
    }
    assert(kept@ =~= without_metadata(all.take(0), xml_file_name@));
    for file in it: files
        invariant
            it.seq() == all,
            kept@ == without_metadata(all.take(it.index()), xml_file_name@),
    {
        proof {
            reveal(Seq::filter);
            assert(all.take(it.index() + 1).drop_last() =~= all.take(it.index()));
        }
        if !text::same(&file.name, xml_file_name) {
            kept.push(file);
        }
    }
    assert(all.take(all.len() as int) =~= all);
    kept
}

/// The first place of a file name in a list; the length of the list where it
/// is not there.
pub open spec fn name_position(files: Seq<XmlFile>, name: Seq<char>) -> int
    decreases files.len(),
{
    if files.len() == 0 || files.first().name@ == name {
        0
    } else {
        1 + name_position(files.skip(1), name)
    }
}

/// Narrows the file list to what one run is about: the file that the URL
/// names, which must be there, or every file but the metadata's own.
pub fn select_files(files: Vec<XmlFile>, xml_file_name: &str, target: &ArchiveTarget) -> (r: Result<
    Vec<XmlFile>,
    IaGetError,
>)
    ensures
        match target.file_path {
            None => r matches Ok(kept) && kept@ == without_metadata(files@, xml_file_name@),
            Some(path) => {
                let at = name_position(files@, path@);
                if at < files@.len() {
                    r matches Ok(kept) && kept@ == seq![files@[at]]
                } else {
                    r matches Err(e) && (e matches IaGetError::FileNotFoundInArchive {
                        identifier,
                        path: missing,
                    } && identifier@ == target.identifier@ && missing@ == path@)
                }
            },
        },
{
    match &target.file_path {
        None => Ok(files_to_download(files, xml_file_name)),
        Some(path) => {
            let ghost all = files@;
            let mut found: Option<XmlFile> = None;
            assert(all.skip(0) =~= all);
            for file in it: files
                invariant
                    it.seq() == all,
                    match found {
                        None => name_position(all, path@) == it.index() + name_position(
                            all.skip(it.index()),
                            path@,
                        ),
                        Some(file) => 0 <= name_position(all, path@) < all.len() && file
                            == all[name_position(all, path@)],
                    },
            {
                assert(all.skip(it.index()).skip(1) =~= all.skip(it.index() + 1));
                if found.is_none() && text::same(&file.name, path) {
                    found = Some(file);
                }
            }
            match found {
                Some(file) => {
                    let mut one: Vec<XmlFile> = Vec::new();
                    one.push(file);
                    assert(one@ =~= seq![file]);
                    Ok(one)
                },
                None => Err(
                    IaGetError::FileNotFoundInArchive {
                        identifier: target.identifier.clone(),
                        path: path.clone(),
                    },
                ),
            }
        },
    }
}

/// A name that the metadata lists is found there.
pub proof fn listed_file_is_found(files: Seq<XmlFile>, name: Seq<char>, i: int)
    requires
        0 <= i < files.len(),
        files[i].name@ == name,
    ensures
        0 <= name_position(files, name) <= i,
        files[name_position(files, name)].name@ == name,
    decreases files.len(),
{
    if files.first().name@ != name {
        let rest = files.skip(1);
        assert(rest[i - 1] == files[i]);
        listed_file_is_found(rest, name, i - 1);
    }
}

// ---------------------------------------------------------------------------
// Local paths
// ---------------------------------------------------------------------------

/// Whether the file system tells names apart that differ in case alone.
#[derive(Clone, Copy, Debug, PartialEq, Eq, Structural)]
pub enum PathCase {
    Sensitive,
    Insensitive,
}

/// A path below the output directory; with no directory, the path itself.
pub open spec fn below(output_dir: Seq<char>, path: Seq<char>) -> Seq<char> {
    if output_dir.len() == 0 {
        path
    } else {
        output_dir + "/"@ + path
    }
}

/// Puts a path below the output directory.
pub fn join_output_dir(output_dir: &str, path: &str) -> (r: String)
    ensures
        r@ == below(output_dir@, path@),
{
    if output_dir.is_empty() {
        path.to_owned()
    } else {
        let mut r = text::concat(output_dir, "/");
        r.append(path);
        r
    }
}

/// A text in lower case, as `str::to_lowercase` has it.
pub uninterp spec fn lowercase(s: Seq<char>) -> Seq<char>;

/// A text in lower case (`str::to_lowercase`): the one named.
#[verifier::external_body]
fn to_lowercase(s: &str) -> (r: String)
    ensures
        r@ == lowercase(s@),
{
    s.to_lowercase()
}

/// What a path is told apart by: itself, or its lower case where the file
/// system does not tell case apart.
pub open spec fn key_of(path: Seq<char>, case: PathCase) -> Seq<char> {
    match case {
        PathCase::Sensitive => path,
        PathCase::Insensitive => lowercase(path),
    }
}

/// The key that local paths are told apart by.
pub fn local_path_key(path: &str, case: PathCase) -> (r: String)
    ensures
        r@ == key_of(path@, case),
{
    match case {
        PathCase::Sensitive => path.to_owned(),
        PathCase::Insensitive => to_lowercase(path),
    }
}

/// The directories that a path implies: "a" and "a/b" for "a/b/c.txt".
pub open spec fn ancestors(path: Seq<char>) -> Seq<Seq<char>> {
    let parts = text::split(path, '/');
    Seq::new((parts.len() - 1) as nat, |i: int| text::join(parts.take(i + 1), "/"@))
}

/// The directories that a path implies, outermost first.
pub fn ancestor_components(path: &str) -> (r: Vec<String>)
    ensures
        text::texts(r@) == ancestors(path@),
{
    let parts = text::split_chars(&text::chars_of(path), '/');
    let ghost pieces = text::split(path@, '/');
    proof {
        text::lemma_split_pieces(path@, '/');
        reveal_strlit("/");
        assert("/"@ =~= seq!['/']);
        assert(pieces.take(1).drop_last() =~= Seq::empty());
        assert(text::join(pieces.take(1), "/"@) =~= pieces[0]);
    }
    let mut list: Vec<String> = Vec::new();
    let mut current: Vec<char> = Vec::new();
    let mut i: usize = 0;
    while i < parts.len() - 1
        invariant
            i <= parts.len() - 1,
            parts.len() >= 1,
            text::rows(parts@) == pieces,
            "/"@ == seq!['/'],
            pieces == text::split(path@, '/'),
            list@.len() == i,
            forall|k: int|
                0 <= k < i ==> (#[trigger] list@[k])@ == text::join(pieces.take(k + 1), "/"@),
            i > 0 ==> current@ == text::join(pieces.take(i as int), "/"@),
            i == 0 ==> current@.len() == 0,
        decreases parts.len() - i,
    {
        assert(parts@[i as int]@ == pieces[i as int]);
        if i > 0 {
            current.push('/');
        }
        text::push_chars(&mut current, &parts[i]);
        proof {
            assert(pieces.take(i + 1).drop_last() =~= pieces.take(i as int));
            assert(current@ =~= text::join(pieces.take(i + 1), "/"@));
        }
        list.push(text::text_of(&current));
        i += 1;
    }
    assert(text::texts(list@) =~= ancestors(path@));
    list
}

// ---------------------------------------------------------------------------
// The plan
// ---------------------------------------------------------------------------

/// A planned download, seen from contracts.
#[verifier::ext_equal]
pub struct TaskView {
    pub url: Seq<char>,
    pub path: Seq<char>,
    pub md5: Option<Seq<char>>,
    pub size: Option<u64>,
    pub mtime: Option<u64>,
}

impl View for DownloadTask {
    type V = TaskView;

    open spec fn view(&self) -> TaskView {
        TaskView {
            url: self.url@,
            path: self.file_path@,
            md5: text::maybe(self.expected_md5),
            size: self.expected_size,
            mtime: self.expected_mtime,
        }
    }
}

/// What each task of a list is.
pub open spec fn task_views(tasks: Seq<DownloadTask>) -> Seq<TaskView> {
    tasks.map_values(|task: DownloadTask| task@)
}

/// A plan in the making, seen from contracts.
#[verifier::ext_equal]
pub struct PlanView {
    /// The tasks, in the order of the files.
    pub tasks: Seq<TaskView>,
    /// For each task, which file it downloads.
    pub sources: Seq<int>,
    /// For each task, where it is stored below the output directory.
    pub paths: Seq<Seq<char>>,
    /// How many names had to be sanitized.
    pub sanitized: nat,
    /// The warnings.
    pub warnings: Seq<Seq<(Seq<char>, Style)>>,
    /// The taken paths by key, with the names that took them.
    pub files: Map<Seq<char>, Seq<char>>,
    /// The implied directories by key, with the names that first did.
    pub dirs: Map<Seq<char>, Seq<char>>,
}

/// A name with a dot segment in it.
pub open spec fn has_dot_segment(name: Seq<char>) -> bool {
    exists|i: int|
        0 <= i < text::split(name, '/').len() && percent::is_dot_segment(
            #[trigger] text::split(name, '/')[i],
        )
}

/// The first of the paths whose key is taken.
pub open spec fn first_taken(
    paths: Seq<Seq<char>>,
    taken: Map<Seq<char>, Seq<char>>,
    case: PathCase,
) -> Option<Seq<char>>
    decreases paths.len(),
{
    if paths.len() == 0 {
        None
    } else if taken.contains_key(key_of(paths.first(), case)) {
        Some(paths.first())
    } else {
        first_taken(paths.skip(1), taken, case)
    }
}

/// What a new path would clash with, and where: a file at the path itself, a
/// file where it needs a directory, or a directory where it would be a file.
pub open spec fn clash(
    path: Seq<char>,
    files: Map<Seq<char>, Seq<char>>,
    dirs: Map<Seq<char>, Seq<char>>,
    case: PathCase,
) -> Option<(Seq<char>, Seq<char>)> {
    let key = key_of(path, case);
    if files.contains_key(key) {
        Some((path, files[key]))
    } else {
        match first_taken(ancestors(path), files, case) {
            Some(at) => Some((at, files[key_of(at, case)])),
            None => if dirs.contains_key(key) {
                Some((path, dirs[key]))
            } else {
                None
            },
        }
    }
}

/// The implied directories, with those of a new path.
pub open spec fn with_dirs(
    dirs: Map<Seq<char>, Seq<char>>,
    paths: Seq<Seq<char>>,
    name: Seq<char>,
    case: PathCase,
) -> Map<Seq<char>, Seq<char>>
    decreases paths.len(),
{
    if paths.len() == 0 {
        dirs
    } else {
        let before = with_dirs(dirs, paths.drop_last(), name, case);
        let key = key_of(paths.last(), case);
        if before.contains_key(key) {
            before
        } else {
            before.insert(key, name)
        }
    }
}

/// The start of a warning: a sign, and what happened.
pub open spec fn warning_head(label: Seq<char>) -> Seq<(Seq<char>, Style)> {
    seq![
        ("⚠"@, Style::YellowBold),
        (" "@, Style::Plain),
        (label + ":"@, Style::Yellow),
        (" "@, Style::Plain),
    ]
}

/// The warning for a name that is left out.
pub open spec fn skipped_warning(name: Seq<char>, reason: Seq<char>) -> Seq<(Seq<char>, Style)> {
    warning_head("Skipped"@).push((name, Style::Dimmed)).push((reason, Style::Plain))
}

/// The warning for a name that is stored under another.
pub open spec fn sanitized_warning(name: Seq<char>, stored: Seq<char>) -> Seq<(Seq<char>, Style)> {
    warning_head("Sanitized"@).push((name, Style::Dimmed)).push((" → "@, Style::Plain)).push(
        (stored, Style::Bold),
    )
}

/// The warning for a name that clashes with an earlier one.
pub open spec fn collision_warning(name: Seq<char>, first: Seq<char>, at: Seq<char>) -> Seq<
    (Seq<char>, Style),
> {
    warning_head("Collision"@).push((name, Style::Dimmed)).push(
        (" collides with "@, Style::Plain),
    ).push((first, Style::Dimmed)).push((" at "@, Style::Plain)).push((at, Style::Bold)).push(
        (" — the later entry is skipped"@, Style::Plain),
    )
}

impl PlanView {
    /// A plan with a warning more.
    pub open spec fn warned(self, warning: Seq<(Seq<char>, Style)>) -> PlanView {
        PlanView { warnings: self.warnings.push(warning), ..self }
    }

    /// The plan with a file whose URL is known: stored under its sanitized
    /// name, unless that clashes with what is planned.
    pub open spec fn with_file(
        self,
        file: XmlFile,
        index: int,
        url: Seq<char>,
        output_dir: Seq<char>,
        case: PathCase,
    ) -> PlanView {
        let stored = filename::sanitized(file.name@);
        let noted = if stored != file.name@ {
            PlanView { sanitized: self.sanitized + 1, ..self }.warned(
                sanitized_warning(file.name@, stored),
            )
        } else {
            self
        };
        match clash(stored, self.files, self.dirs, case) {
            Some((at, first)) => noted.warned(collision_warning(file.name@, first, at)),
            None => PlanView {
                tasks: noted.tasks.push(
                    TaskView {
                        url,
                        path: below(output_dir, stored),
                        md5: text::maybe(file.md5),
                        size: file.size,
                        mtime: file.mtime,
                    },
                ),
                sources: noted.sources.push(index),
                paths: noted.paths.push(stored),
                files: noted.files.insert(key_of(stored, case), file.name@),
                dirs: with_dirs(noted.dirs, ancestors(stored), file.name@, case),
                ..noted
            },
        }
    }
}

/// The plan before any file: nothing is taken, but for the name of the
/// metadata document in a whole-item run, which saves it.
pub open spec fn empty_plan(reserved: Option<Seq<char>>, case: PathCase) -> PlanView {
    PlanView {
        tasks: Seq::empty(),
        sources: Seq::empty(),
        paths: Seq::empty(),
        sanitized: 0,
        warnings: Seq::empty(),
        files: match reserved {
            Some(name) => Map::empty().insert(key_of(name, case), name),
            None => Map::empty(),
        },
        dirs: Map::empty(),
    }
}

/// The plan for a list of files: each in turn, with a warning for those that
/// no URL can name. A URL that cannot be built ends it, with what its error
/// reads.
pub open spec fn planned(
    files: Seq<XmlFile>,
    base: Seq<char>,
    output_dir: Seq<char>,
    reserved: Option<Seq<char>>,
    case: PathCase,
) -> Result<PlanView, Seq<char>>
    decreases files.len(),
{
    if files.len() == 0 {
        Ok(empty_plan(reserved, case))
    } else {
        match planned(files.drop_last(), base, output_dir, reserved, case) {
            Err(message) => Err(message),
            Ok(plan) => {
                let file = files.last();
                let path = percent::encoded_path(file.name@);
                if has_dot_segment(file.name@) {
                    Ok(plan.warned(skipped_warning(file.name@, " (dot-segment name)"@)))
                } else if path.len() == 0 {
                    Ok(plan.warned(skipped_warning(file.name@, " (empty name)"@)))
                } else {
                    match link::joined_url(base, path) {
                        Err(message) => Err(message),
                        Ok(url) => Ok(
                            plan.with_file(file, files.len() - 1, url.0, output_dir, case),
                        ),
                    }
                }
            },
        }
    }
}

/// The name that a run reserves for the metadata document.
pub open spec fn reserved_name(base_url: Link, target: ArchiveTarget) -> Option<Seq<char>> {
    if target.file_path is None {
        Some(text::split(base_url.path@, '/').last())
    } else {
        None
    }
}

/// The download plan: what will be downloaded, how many names were
/// sanitized, and the warnings to print.
#[derive(Debug)]
pub struct DownloadPlan {
    pub tasks: Vec<DownloadTask>,
    pub sanitized_count: usize,
    pub warnings: Vec<Line>,
}

/// A plan in the making.
pub struct PlanBuilder {
    pub tasks: Vec<DownloadTask>,
    pub sanitized_count: usize,
    pub warnings: Vec<Line>,
    pub planned_files: StringHashMap<String>,
    pub planned_dirs: StringHashMap<String>,
    pub case: PathCase,
}

/// What each name of a book is.
pub open spec fn book(map: Map<Seq<char>, String>) -> Map<Seq<char>, Seq<char>> {
    map.map_values(|name: String| name@)
}

impl PlanBuilder {
    /// Whether the builder holds the plan in the making.
    pub open spec fn holds(&self, plan: PlanView) -> bool {
        &&& task_views(self.tasks@) == plan.tasks
        &&& self.sanitized_count == plan.sanitized
        &&& styled::lines(self.warnings@) == plan.warnings
        &&& book(self.planned_files@) == plan.files
        &&& book(self.planned_dirs@) == plan.dirs
    }

    /// A builder for a run that reserves a name, or none.
    pub fn new(reserved: Option<String>, case: PathCase) -> (r: Self)
        ensures
            r.case == case,
            r.holds(empty_plan(text::maybe(reserved), case)),
    {
        let mut planned_files: StringHashMap<String> = StringHashMap::new();
        let ghost name = text::maybe(reserved);
        match reserved {
            Some(name) => {
                planned_files.insert(local_path_key(&name, case), name);
            },
            None => {},
        }
        let r = PlanBuilder {
            tasks: Vec::new(),
            sanitized_count: 0,
            warnings: Vec::new(),
            planned_files,
            planned_dirs: StringHashMap::new(),
            case,
        };
        proof {
            let plan = empty_plan(name, case);
            assert(task_views(r.tasks@) =~= plan.tasks);
            assert(styled::lines(r.warnings@) =~= plan.warnings);
            assert(book(r.planned_files@) =~= plan.files);
            assert(book(r.planned_dirs@) =~= plan.dirs);
        }
        r
    }

    /// Adds a warning.
    fn warn(&mut self, warning: Line)
        ensures
            final(self).case == old(self).case,
            final(self).tasks == old(self).tasks,
            final(self).sanitized_count == old(self).sanitized_count,
            final(self).planned_files == old(self).planned_files,
            final(self).planned_dirs == old(self).planned_dirs,
            styled::lines(final(self).warnings@) == styled::lines(old(self).warnings@).push(
                warning@,
            ),
    {
        self.warnings.push(warning);
        assert(styled::lines(self.warnings@) =~= styled::lines(old(self).warnings@).push(warning@));
    }

    /// What a new path would clash with, if anything: where, and the earlier
    /// entry's name.
    fn clashing_entry(&self, path: &str) -> (r: Option<(String, String)>)
        ensures
            match r {
                Some((at, first)) => clash(
                    path@,
                    book(self.planned_files@),
                    book(self.planned_dirs@),
                    self.case,
                ) == Some((at@, first@)),
                None => clash(
                    path@,
                    book(self.planned_files@),
                    book(self.planned_dirs@),
                    self.case,
                ) is None,
            },
    {
        let key = local_path_key(path, self.case);
        match self.planned_files.get(&key) {
            Some(first) => {
                return Some((path.to_owned(), first.clone()));
            },
            None => {},
        }
        let list = ancestor_components(path);
        let ghost paths = ancestors(path@);
        let mut i: usize = 0;
        assert(paths.skip(0) =~= paths);
        while i < list.len()
            invariant
                i <= list.len(),
                text::texts(list@) == paths,
                paths == ancestors(path@),
                !book(self.planned_files@).contains_key(key_of(path@, self.case)),
                first_taken(paths, book(self.planned_files@), self.case) == first_taken(
                    paths.skip(i as int),
                    book(self.planned_files@),
                    self.case,
                ),
            decreases list.len() - i,
        {
            assert(list@[i as int]@ == paths[i as int]);
            assert(paths.skip(i as int).skip(1) =~= paths.skip(i + 1));
            match self.planned_files.get(&local_path_key(&list[i], self.case)) {
                Some(first) => {
                    return Some((list[i].clone(), first.clone()));
                },
                None => {},
            }
            i += 1;
        }
        assert(paths.skip(i as int).len() == 0);
        match self.planned_dirs.get(&key) {
            Some(first) => Some((path.to_owned(), first.clone())),
            None => None,
        }
    }

    /// Takes a path and the directories that it implies.
    fn register_planned_path(&mut self, path: &str, name: &str)
        ensures
            final(self).case == old(self).case,
            final(self).tasks == old(self).tasks,
            final(self).sanitized_count == old(self).sanitized_count,
            final(self).warnings == old(self).warnings,
            book(final(self).planned_files@) == book(old(self).planned_files@).insert(
                key_of(path@, old(self).case),
                name@,
            ),
            book(final(self).planned_dirs@) == with_dirs(
                book(old(self).planned_dirs@),
                ancestors(path@),
                name@,
                old(self).case,
            ),
    {
        self.planned_files.insert(local_path_key(path, self.case), name.to_owned());
        assert(book(self.planned_files@) =~= book(old(self).planned_files@).insert(
            key_of(path@, self.case),
            name@,
        ));
        let list = ancestor_components(path);
        let ghost paths = ancestors(path@);
        let mut i: usize = 0;
        while i < list.len()
            invariant
                i <= list.len(),
                text::texts(list@) == paths,
                self.case == old(self).case,
                self.tasks == old(self).tasks,
                self.sanitized_count == old(self).sanitized_count,
                self.warnings == old(self).warnings,
                book(self.planned_files@) == book(old(self).planned_files@).insert(
                    key_of(path@, old(self).case),
                    name@,
                ),
                book(self.planned_dirs@) == with_dirs(
                    book(old(self).planned_dirs@),
                    paths.take(i as int),
                    name@,
                    self.case,
                ),
            decreases list.len() - i,
        {
            let ghost before = book(self.planned_dirs@);
            assert(list@[i as int]@ == paths[i as int]);
            assert(paths.take(i + 1).drop_last() =~= paths.take(i as int));
            let key = local_path_key(&list[i], self.case);
            if !self.planned_dirs.contains_key(&key) {
                let ghost k = key@;
                self.planned_dirs.insert(key, name.to_owned());
                assert(book(self.planned_dirs@) =~= before.insert(k, name@));
            }
            i += 1;
        }
        assert(paths.take(paths.len() as int) =~= paths);
    }

    /// Adds a file whose URL is known: a task, unless its path clashes with
    /// what is planned.
    pub fn add_file(&mut self, file: XmlFile, url: String, output_dir: &str)
        requires
            old(self).sanitized_count < usize::MAX,
        ensures
            final(self).case == old(self).case,
            forall|plan: PlanView, index: int|
                #![trigger old(self).holds(plan), plan.with_file(file, index, url@, output_dir@, old(self).case)]
                old(self).holds(plan) ==> final(self).holds(
                    plan.with_file(file, index, url@, output_dir@, old(self).case),
                ),
    {
        let (stored, was_modified) = sanitize_filename(&file.name);
        let ghost name = file.name@;
        let ghost noted = if was_modified {
            styled::lines(self.warnings@).push(sanitized_warning(name, stored@))
        } else {
            styled::lines(self.warnings@)
        };
        let ghost wanted = TaskView {
            url: url@,
            path: below(output_dir@, stored@),
            md5: text::maybe(file.md5),
            size: file.size,
            mtime: file.mtime,
        };
        if was_modified {
            self.warn(sanitized_line(&file.name, &stored));
            self.sanitized_count = self.sanitized_count + 1;
        }
        assert(styled::lines(self.warnings@) == noted);
        let ghost clashes = clash(
            stored@,
            book(self.planned_files@),
            book(self.planned_dirs@),
            self.case,
        );
        match self.clashing_entry(&stored) {
            Some((at, first)) => {
                self.warn(collision_line(&file.name, &first, &at));
                assert(styled::lines(self.warnings@) == noted.push(
                    collision_warning(name, first@, at@),
                ));
            },
            None => {
                self.register_planned_path(&stored, &file.name);
                let ghost before = self.tasks@;
                let task = DownloadTask {
                    url,
                    file_path: join_output_dir(output_dir, &stored),
                    expected_md5: file.md5,
                    expected_size: file.size,
                    expected_mtime: file.mtime,
                };
                assert(task@ =~= wanted);
                self.tasks.push(task);
                assert(task_views(self.tasks@) =~= task_views(before).push(wanted));
            },
        }
    }
}

/// The start of a warning.
fn warning_line(label: &str) -> (r: Line)
    ensures
        r@ == warning_head(label@),
{
    let mut line = Line::new();
    line.push("⚠", Style::YellowBold);
    line.push(" ", Style::Plain);
    line.push(&text::concat(label, ":"), Style::Yellow);
    line.push(" ", Style::Plain);
    line
}

fn skipped_line(name: &str, reason: &str) -> (r: Line)
    ensures
        r@ == skipped_warning(name@, reason@),
{
    let mut line = warning_line("Skipped");
    line.push(name, Style::Dimmed);
    line.push(reason, Style::Plain);
    line
}

fn sanitized_line(name: &str, stored: &str) -> (r: Line)
    ensures
        r@ == sanitized_warning(name@, stored@),
{
    let mut line = warning_line("Sanitized");
    line.push(name, Style::Dimmed);
    line.push(" → ", Style::Plain);
    line.push(stored, Style::Bold);
    line
}

fn collision_line(name: &str, first: &str, at: &str) -> (r: Line)
    ensures
        r@ == collision_warning(name@, first@, at@),
{
    let mut line = warning_line("Collision");
    line.push(name, Style::Dimmed);
    line.push(" collides with ", Style::Plain);
    line.push(first, Style::Dimmed);
    line.push(" at ", Style::Plain);
    line.push(at, Style::Bold);
    line.push(" — the later entry is skipped", Style::Plain);
    line
}

/// Whether a name has a dot segment in it.
fn names_dot_segment(name: &str) -> (r: bool)
    ensures
        r == has_dot_segment(name@),
{
    let parts = text::split_chars(&text::chars_of(name), '/');
    let ghost pieces = text::split(name@, '/');
    let mut i: usize = 0;
    while i < parts.len()
        invariant
            i <= parts.len(),
            text::rows(parts@) == pieces,
            pieces == text::split(name@, '/'),
            forall|k: int| 0 <= k < i ==> !percent::is_dot_segment(#[trigger] pieces[k]),
        decreases parts.len() - i,
    {
        assert(parts@[i as int]@ == pieces[i as int]);
        if text::is_text(&parts[i], ".") || text::is_text(&parts[i], "..") {
            return true;
        }
        i += 1;
    }
    false
}

/// Every task downloads from below the directory of a base URL, by its
/// file's encoded name.
pub open spec fn urls_stay_below(plan: PlanView, files: Seq<XmlFile>, base: Seq<char>) -> bool {
    forall|i: int|
        0 <= i < plan.tasks.len() ==> (#[trigger] plan.tasks[i]).url == link::directory(base)
            + percent::encoded_path(files[plan.sources[i]].name@)
}

/// Turns the metadata into download tasks: each file's URL and where it is
/// stored, with a warning for every rename, collision and skip.
///
/// A whole-item run reserves the name of the metadata document. Names that
/// no URL can name are skipped, as are those whose path collides with an
/// earlier one's. A URL that cannot be built ends the run, as does a plan
/// without tasks.
pub fn plan_download_tasks(
    files: Vec<XmlFile>,
    base_url: &Link,
    output_dir: &str,
    target: &ArchiveTarget,
    case: PathCase,
) -> (r: Result<DownloadPlan, IaGetError>)
    ensures
        match planned(
            files@,
            base_url.href@,
            output_dir@,
            reserved_name(*base_url, *target),
            case,
        ) {
            Err(message) => r matches Err(e) && (e matches IaGetError::UrlFormat(text) && text@
                == message),
            Ok(view) => if view.tasks.len() == 0 {
                r matches Err(e) && (e matches IaGetError::NoFilesSelected { identifier }
                    && identifier@ == target.identifier@)
            } else {
                r matches Ok(plan) && task_views(plan.tasks@) == view.tasks && plan.sanitized_count
                    == view.sanitized && styled::lines(plan.warnings@) == view.warnings
            },
        },
        link::is_settled_url(base_url.href@) ==> (planned(
            files@,
            base_url.href@,
            output_dir@,
            reserved_name(*base_url, *target),
            case,
        ) matches Ok(view) && urls_stay_below(view, files@, base_url.href@)),
{
    let reserved = match &target.file_path {
        None => Some(xml_file_name_of(base_url)),
        Some(_) => None,
    };
    let ghost all = files@;
    let ghost res = reserved_name(*base_url, *target);
    let mut builder = PlanBuilder::new(reserved, case);
    let total: usize = files.len();
    let ghost mut plan: PlanView = empty_plan(res, case);
    let mut count: usize = 0;
    for file in it: files
        invariant
            it.seq() == all,
            all.len() == total,
            count == it.index(),
            builder.case == case,
            builder.holds(plan),
            builder.sanitized_count <= count,
            planned(all.take(it.index()), base_url.href@, output_dir@, res, case) == Ok::<
                PlanView,
                Seq<char>,
            >(plan),
            res == reserved_name(*base_url, *target),
            link::is_settled_url(base_url.href@) ==> urls_stay_below(plan, all, base_url.href@),
            plan.sources.len() == plan.tasks.len(),
            forall|i: int| 0 <= i < plan.sources.len() ==> #[trigger] plan.sources[i] < it.index(),
    {
        let ghost upto = all.take(it.index() + 1);
        proof {
            assert(upto.drop_last() =~= all.take(it.index()));
            assert(upto.last() == file);
        }
        count = count + 1;
        let path = encode_download_path(&file.name);
        if names_dot_segment(&file.name) {
            let line = skipped_line(&file.name, " (dot-segment name)");
            builder.warn(line);
            proof {
                plan = plan.warned(skipped_warning(file.name@, " (dot-segment name)"@));
            }
        } else if path.as_str().is_empty() {
            let line = skipped_line(&file.name, " (empty name)");
            builder.warn(line);
            proof {
                plan = plan.warned(skipped_warning(file.name@, " (empty name)"@));
            }
        } else {
            proof {
                link::encoded_path_is_settled(file.name@);
            }
            match base_url.join(&path) {
                Err(fault) => {
                    proof {
                        lemma_planned_err(
                            all,
                            it.index() + 1,
                            base_url.href@,
                            output_dir@,
                            res,
                            case,
                        );
                    }
                    return Err(IaGetError::from(fault));
                },
                Ok(url) => {
                    let ghost href = url.href@;
                    let ghost held = builder;
                    builder.add_file(file, url.href, output_dir);
                    proof {
                        assert(held.holds(plan));
                        plan = plan.with_file(file, it.index(), href, output_dir@, case);
                    }
                },
            }
        }
    }
    assert(all.take(all.len() as int) =~= all);
    if builder.tasks.len() == 0 {
        return Err(IaGetError::NoFilesSelected { identifier: target.identifier.clone() });
    }
    Ok(
        DownloadPlan {
            tasks: builder.tasks,
            sanitized_count: builder.sanitized_count,
            warnings: builder.warnings,
        },
    )
}

/// A plan that ended on a file has ended.
proof fn lemma_planned_err(
    files: Seq<XmlFile>,
    i: int,
    base: Seq<char>,
    output_dir: Seq<char>,
    reserved: Option<Seq<char>>,
    case: PathCase,
)
    requires
        0 <= i <= files.len(),
        planned(files.take(i), base, output_dir, reserved, case) is Err,
    ensures
        planned(files, base, output_dir, reserved, case) == planned(
            files.take(i),
            base,
            output_dir,
            reserved,
            case,
        ),
    decreases files.len(),
{
    if i == files.len() {
        assert(files.take(i) =~= files);
    } else {
        assert(files.drop_last().take(i) =~= files.take(i));
        lemma_planned_err(files.drop_last(), i, base, output_dir, reserved, case);
    }
}

// ---------------------------------------------------------------------------
// The space that a plan needs
// ---------------------------------------------------------------------------

/// How much of the disk a file holds, where the system tells.
#[derive(Clone, Copy, Debug, PartialEq, Eq, Structural)]
pub struct Allocation {
    /// How many names the file has.
    pub links: u64,
    /// How many blocks of 512 bytes it takes.
    pub blocks: u64,
}

/// A file on disk.
#[derive(Clone, Copy, Debug, PartialEq, Eq, Structural)]
pub struct FileFacts {
    pub len: u64,
    pub allocation: Option<Allocation>,
}

/// What is on disk for a task: the final file, and how long its partial file
/// is.
#[derive(Clone, Copy, Debug, PartialEq, Eq, Structural)]
pub struct TaskDisk {
    pub final_file: Option<FileFacts>,
    pub part_len: Option<u64>,
}

/// What removing a file frees: nothing where another name still holds it,
/// else its blocks; its length where the system does not tell.
pub open spec fn freed(file: FileFacts) -> nat {
    match file.allocation {
        Some(allocation) => if allocation.links > 1 {
            0
        } else if allocation.blocks * 512 <= u64::MAX {
            (allocation.blocks * 512) as nat
        } else {
            u64::MAX as nat
        },
        None => file.len as nat,
    }
}

/// The first number less the second, or zero.
pub open spec fn shortfall(need: nat, have: nat) -> nat {
    if need <= have {
        0
    } else {
        (need - have) as nat
    }
}

/// The bytes that a task still has to write: nothing where no size is known;
/// for a final file of the expected size what its removal would not free;
/// else what its partial file lacks; else everything.
pub open spec fn remaining(task: DownloadTask, disk: TaskDisk) -> nat {
    match task.expected_size {
        None => 0,
        Some(expected) => if disk.final_file matches Some(file) && file.len == expected {
            shortfall(expected as nat, freed(disk.final_file->0))
        } else {
            match disk.part_len {
                Some(len) => shortfall(expected as nat, len as nat),
                None => expected as nat,
            }
        },
    }
}

/// The bytes that tasks still have to write.
pub open spec fn remaining_total(tasks: Seq<DownloadTask>, disk: Seq<TaskDisk>) -> nat
    decreases tasks.len(),
{
    if tasks.len() == 0 {
        0
    } else {
        remaining_total(tasks.drop_last(), disk.drop_last()) + remaining(tasks.last(), disk.last())
    }
}

/// What removing a file frees.
fn freed_by_removal(file: &FileFacts) -> (r: u64)
    ensures
        r == freed(*file),
{
    match file.allocation {
        Some(allocation) => if allocation.links > 1 {
            0
        } else {
            let bytes: u128 = allocation.blocks as u128 * 512;
            if bytes <= u64::MAX as u128 {
                bytes as u64
            } else {
                u64::MAX
            }
        },
        None => file.len,
    }
}

/// The bytes that one task still has to write.
pub fn remaining_bytes_for(task: &DownloadTask, disk: &TaskDisk) -> (r: u64)
    ensures
        r == remaining(*task, *disk),
{
    let expected: u64 = match task.expected_size {
        Some(expected) => expected,
        None => {
            return 0;
        },
    };
    if let Some(file) = &disk.final_file {
        if file.len == expected {
            return expected.saturating_sub(freed_by_removal(file));
        }
    }
    match disk.part_len {
        Some(len) => expected.saturating_sub(len),
        None => expected,
    }
}

/// The bytes that the tasks still have to write, however many they are.
pub fn total_remaining(tasks: &Vec<DownloadTask>, disk: &Vec<TaskDisk>) -> (r: u128)
    requires
        tasks@.len() == disk@.len(),
    ensures
        r == remaining_total(tasks@, disk@),
{
    let mut total: u128 = 0;
    let mut i: usize = 0;
    while i < tasks.len()
        invariant
            i <= tasks.len(),
            tasks@.len() == disk@.len(),
            total == remaining_total(tasks@.take(i as int), disk@.take(i as int)),
            total <= i * 0xffff_ffff_ffff_ffff,
        decreases tasks.len() - i,
    {
        proof {
            assert(tasks@.take(i + 1).drop_last() =~= tasks@.take(i as int));
            assert(disk@.take(i + 1).drop_last() =~= disk@.take(i as int));
            assert(i * 0xffff_ffff_ffff_ffff <= 0xffff_ffff_ffff_ffff * 0xffff_ffff_ffff_ffff)
                by (nonlinear_arith)
                requires
                    i <= 0xffff_ffff_ffff_ffff,
            ;
        }
        total = total + remaining_bytes_for(&tasks[i], &disk[i]) as u128;
        i += 1;
    }
    proof {
        assert(tasks@.take(tasks@.len() as int) =~= tasks@);
        assert(disk@.take(disk@.len() as int) =~= disk@);
    }
    total
}

/// The bytes that a plan still has to write, as far as the metadata and what
/// is on disk tell. A file of unknown size is not counted, so this is a
/// lower bound.
pub fn required_download_space(tasks: &Vec<DownloadTask>, disk: &Vec<TaskDisk>) -> (r: u64)
    requires
        tasks@.len() == disk@.len(),
        remaining_total(tasks@, disk@) <= u64::MAX,
    ensures
        r == remaining_total(tasks@, disk@),
{
    total_remaining(tasks, disk) as u64
}

/// A task never has to write more than the file's size.
pub proof fn remaining_is_at_most_the_size(task: DownloadTask, disk: TaskDisk)
    ensures
        task.expected_size matches Some(size) ==> remaining(task, disk) <= size,
        task.expected_size is None ==> remaining(task, disk) == 0,
{
}

/// A finished file that holds its blocks alone needs no more space, whether
/// it is kept or downloaded again.
pub proof fn finished_file_needs_nothing(task: DownloadTask, disk: TaskDisk)
    requires
        disk.final_file matches Some(file) && task.expected_size == Some(file.len) && (
        file.allocation matches Some(a) ==> a.links <= 1 && a.blocks * 512 >= file.len),
    ensures
        remaining(task, disk) == 0,
{
}

/// A partial file leaves its missing rest to write.
pub proof fn partial_file_leaves_the_rest(task: DownloadTask, disk: TaskDisk)
    requires
        disk.final_file is None,
        disk.part_len is Some,
        task.expected_size is Some,
        disk.part_len->0 <= task.expected_size->0,
    ensures
        remaining(task, disk) + disk.part_len->0 == task.expected_size->0,
{
}

// ---------------------------------------------------------------------------
// What a plan promises
// ---------------------------------------------------------------------------

/// Whether a path needs a directory with the given key.
pub open spec fn needs_dir(path: Seq<char>, key: Seq<char>, case: PathCase) -> bool {
    exists|a: int|
        0 <= a < ancestors(path).len() && key_of(#[trigger] ancestors(path)[a], case) == key
}

/// The task for a file.
pub open spec fn task_for(file: XmlFile, base: Seq<char>, output_dir: Seq<char>) -> TaskView {
    TaskView {
        url: link::joined_url(base, percent::encoded_path(file.name@))->Ok_0.0,
        path: below(output_dir, filename::sanitized(file.name@)),
        md5: text::maybe(file.md5),
        size: file.size,
        mtime: file.mtime,
    }
}

/// A file that a URL can name.
pub open spec fn is_nameable(file: XmlFile, base: Seq<char>) -> bool {
    &&& !has_dot_segment(file.name@)
    &&& percent::encoded_path(file.name@).len() > 0
    &&& link::joined_url(base, percent::encoded_path(file.name@)) is Ok
}

/// Every task is the one for a listed file that a URL can name, stored under
/// its sanitized name, and the tasks keep the order of the files.
pub open spec fn is_faithful(
    plan: PlanView,
    files: Seq<XmlFile>,
    base: Seq<char>,
    output_dir: Seq<char>,
) -> bool {
    &&& plan.sources.len() == plan.tasks.len()
    &&& plan.paths.len() == plan.tasks.len()
    &&& forall|i: int|
        0 <= i < plan.sources.len() ==> 0 <= #[trigger] plan.sources[i] < files.len()
            && is_nameable(files[plan.sources[i]], base)
    &&& forall|i: int, j: int|
        0 <= i < j < plan.sources.len() ==> #[trigger] plan.sources[i] < #[trigger] plan.sources[j]
    &&& forall|i: int|
        0 <= i < plan.tasks.len() ==> #[trigger] plan.tasks[i] == task_for(
            files[plan.sources[i]],
            base,
            output_dir,
        )
    &&& forall|i: int|
        0 <= i < plan.paths.len() ==> #[trigger] plan.paths[i] == filename::sanitized(
            files[plan.sources[i]].name@,
        )
}

/// No two tasks are stored at the same path, and none where another needs a
/// directory.
pub open spec fn is_free_of_clashes(plan: PlanView, case: PathCase) -> bool {
    forall|i: int, j: int|
        #![trigger plan.paths[i], plan.paths[j]]
        0 <= i < plan.paths.len() && 0 <= j < plan.paths.len() && i != j ==> key_of(
            plan.paths[i],
            case,
        ) != key_of(plan.paths[j], case) && !needs_dir(
            plan.paths[j],
            key_of(plan.paths[i], case),
            case,
        )
}

/// No task is stored at a reserved name, nor needs a directory there.
pub open spec fn spares(plan: PlanView, reserved: Option<Seq<char>>, case: PathCase) -> bool {
    match reserved {
        Some(name) => forall|i: int|
            0 <= i < plan.paths.len() ==> key_of(#[trigger] plan.paths[i], case) != key_of(
                name,
                case,
            ) && !needs_dir(plan.paths[i], key_of(name, case), case),
        None => true,
    }
}

/// Every file is a task or has a warning for being left out; the other
/// warnings are those for sanitized names.
pub open spec fn accounts_for(plan: PlanView, files: Seq<XmlFile>) -> bool {
    plan.tasks.len() + plan.warnings.len() == files.len() + plan.sanitized
}

/// The books say what is taken and what is a directory.
spec fn books_agree(plan: PlanView, reserved: Option<Seq<char>>, case: PathCase) -> bool {
    &&& forall|k: Seq<char>|
        #[trigger] plan.files.contains_key(k) == (has_path_key(plan.paths, k, case) || (reserved
            is Some && k == key_of(reserved->0, case)))
    &&& forall|k: Seq<char>|
        #[trigger] plan.dirs.contains_key(k) == has_dir_key(plan.paths, k, case)
}

spec fn has_path_key(paths: Seq<Seq<char>>, key: Seq<char>, case: PathCase) -> bool {
    exists|i: int| 0 <= i < paths.len() && key_of(#[trigger] paths[i], case) == key
}

spec fn has_dir_key(paths: Seq<Seq<char>>, key: Seq<char>, case: PathCase) -> bool {
    exists|i: int| 0 <= i < paths.len() && needs_dir(#[trigger] paths[i], key, case)
}

proof fn lemma_first_taken(
    paths: Seq<Seq<char>>,
    taken: Map<Seq<char>, Seq<char>>,
    case: PathCase,
)
    requires
        first_taken(paths, taken, case) is None,
    ensures
        forall|a: int|
            0 <= a < paths.len() ==> !taken.contains_key(key_of(#[trigger] paths[a], case)),
    decreases paths.len(),
{
    if paths.len() > 0 {
        let rest = paths.skip(1);
        lemma_first_taken(rest, taken, case);
        assert forall|a: int| 0 <= a < paths.len() implies !taken.contains_key(
            key_of(#[trigger] paths[a], case),
        ) by {
            if a > 0 {
                assert(rest[a - 1] == paths[a]);
            }
        }
    }
}

proof fn lemma_with_dirs(
    dirs: Map<Seq<char>, Seq<char>>,
    paths: Seq<Seq<char>>,
    name: Seq<char>,
    case: PathCase,
)
    ensures
        forall|k: Seq<char>|
            #[trigger] with_dirs(dirs, paths, name, case).contains_key(k) == (dirs.contains_key(k)
                || has_path_key(paths, k, case)),
    decreases paths.len(),
{
    if paths.len() > 0 {
        let head = paths.drop_last();
        lemma_with_dirs(dirs, head, name, case);
        let key = key_of(paths.last(), case);
        assert forall|k: Seq<char>|
            #[trigger] with_dirs(dirs, paths, name, case).contains_key(k) == (dirs.contains_key(k)
                || has_path_key(paths, k, case)) by {
            assert(with_dirs(dirs, head, name, case).contains_key(k) == (dirs.contains_key(k)
                || has_path_key(head, k, case)));
            if has_path_key(head, k, case) {
                let i = choose|i: int| 0 <= i < head.len() && key_of(#[trigger] head[i], case) == k;
                assert(paths[i] == head[i]);
            }
            if has_path_key(paths, k, case) {
                let i = choose|i: int|
                    0 <= i < paths.len() && key_of(#[trigger] paths[i], case) == k;
                if i < head.len() {
                    assert(head[i] == paths[i]);
                }
            }
            assert(paths[paths.len() - 1] == paths.last());
            assert(with_dirs(dirs, head, name, case).contains_key(key) == (dirs.contains_key(key)
                || has_path_key(head, key, case)));
        }
    }
}

/// Adding a file keeps every promise.
proof fn lemma_with_file(
    plan: PlanView,
    files: Seq<XmlFile>,
    base: Seq<char>,
    output_dir: Seq<char>,
    reserved: Option<Seq<char>>,
    case: PathCase,
)
    requires
        files.len() > 0,
        is_faithful(plan, files.drop_last(), base, output_dir),
        is_free_of_clashes(plan, case),
        spares(plan, reserved, case),
        books_agree(plan, reserved, case),
        is_nameable(files.last(), base),
    ensures
        ({
            let next = plan.with_file(
                files.last(),
                files.len() - 1,
                link::joined_url(base, percent::encoded_path(files.last().name@))->Ok_0.0,
                output_dir,
                case,
            );
            &&& is_faithful(next, files, base, output_dir)
            &&& is_free_of_clashes(next, case)
            &&& spares(next, reserved, case)
            &&& books_agree(next, reserved, case)
        }),
{
    let head = files.drop_last();
    let file = files.last();
    let index = files.len() - 1;
    let url = link::joined_url(base, percent::encoded_path(file.name@))->Ok_0.0;
    let next = plan.with_file(file, index, url, output_dir, case);
    let stored = filename::sanitized(file.name@);
    assert forall|i: int| 0 <= i < plan.sources.len() implies files[#[trigger] plan.sources[i]]
        == head[plan.sources[i]] by {}
    match clash(stored, plan.files, plan.dirs, case) {
        Some(_) => {
            assert(next.paths == plan.paths);
        },
        None => {
            let n = plan.paths.len() as int;
            let key = key_of(stored, case);
            assert(next.paths == plan.paths.push(stored));
            lemma_first_taken(ancestors(stored), plan.files, case);
            lemma_with_dirs(plan.dirs, ancestors(stored), file.name@, case);
            assert(!plan.files.contains_key(key));
            assert(!plan.dirs.contains_key(key));
            assert forall|i: int, j: int|
                #![trigger next.paths[i], next.paths[j]]
                0 <= i < next.paths.len() && 0 <= j < next.paths.len() && i != j implies key_of(
                next.paths[i],
                case,
            ) != key_of(next.paths[j], case) && !needs_dir(
                next.paths[j],
                key_of(next.paths[i], case),
                case,
            ) by {
                if i < n && j < n {
                    assert(next.paths[i] == plan.paths[i] && next.paths[j] == plan.paths[j]);
                } else if i < n {
                    assert(next.paths[i] == plan.paths[i]);
                    assert(has_path_key(plan.paths, key_of(plan.paths[i], case), case));
                    assert(plan.files.contains_key(key_of(plan.paths[i], case)));
                    if needs_dir(stored, key_of(plan.paths[i], case), case) {
                        let a = choose|a: int|
                            0 <= a < ancestors(stored).len() && key_of(
                                #[trigger] ancestors(stored)[a],
                                case,
                            ) == key_of(plan.paths[i], case);
                        assert(!plan.files.contains_key(key_of(ancestors(stored)[a], case)));
                    }
                } else {
                    assert(next.paths[j] == plan.paths[j]);
                    assert(has_path_key(plan.paths, key_of(plan.paths[j], case), case));
                    assert(plan.files.contains_key(key_of(plan.paths[j], case)));
                    if needs_dir(plan.paths[j], key, case) {
                        assert(has_dir_key(plan.paths, key, case));
                    }
                }
            }
            if reserved is Some {
                let name = reserved->0;
                assert(plan.files.contains_key(key_of(name, case)));
                assert forall|i: int| 0 <= i < next.paths.len() implies key_of(
                    #[trigger] next.paths[i],
                    case,
                ) != key_of(name, case) && !needs_dir(
                    next.paths[i],
                    key_of(name, case),
                    case,
                ) by {
                    if i < n {
                        assert(next.paths[i] == plan.paths[i]);
                    } else if needs_dir(stored, key_of(name, case), case) {
                        let a = choose|a: int|
                            0 <= a < ancestors(stored).len() && key_of(
                                #[trigger] ancestors(stored)[a],
                                case,
                            ) == key_of(name, case);
                        assert(!plan.files.contains_key(key_of(ancestors(stored)[a], case)));
                    }
                }
            }
            assert forall|k: Seq<char>|
                #[trigger] next.files.contains_key(k) == (has_path_key(next.paths, k, case) || (
                reserved is Some && k == key_of(reserved->0, case))) by {
                assert(plan.files.contains_key(k) == (has_path_key(plan.paths, k, case) || (
                reserved is Some && k == key_of(reserved->0, case))));
                lemma_path_key_push(plan.paths, stored, k, case);
            }
            assert forall|k: Seq<char>|
                #[trigger] next.dirs.contains_key(k) == has_dir_key(next.paths, k, case) by {
                assert(plan.dirs.contains_key(k) == has_dir_key(plan.paths, k, case));
                lemma_dir_key_push(plan.paths, stored, k, case);
                assert(with_dirs(plan.dirs, ancestors(stored), file.name@, case).contains_key(k)
                    == (plan.dirs.contains_key(k) || has_path_key(ancestors(stored), k, case)));
            }
        },
    }
}

proof fn lemma_path_key_push(
    paths: Seq<Seq<char>>,
    path: Seq<char>,
    key: Seq<char>,
    case: PathCase,
)
    ensures
        has_path_key(paths.push(path), key, case) == (has_path_key(paths, key, case) || key_of(
            path,
            case,
        ) == key),
{
    let all = paths.push(path);
    if has_path_key(paths, key, case) {
        let i = choose|i: int| 0 <= i < paths.len() && key_of(#[trigger] paths[i], case) == key;
        assert(all[i] == paths[i]);
    }
    if key_of(path, case) == key {
        assert(all[paths.len() as int] == path);
    }
    if has_path_key(all, key, case) {
        let i = choose|i: int| 0 <= i < all.len() && key_of(#[trigger] all[i], case) == key;
        if i < paths.len() {
            assert(paths[i] == all[i]);
        }
    }
}

proof fn lemma_dir_key_push(paths: Seq<Seq<char>>, path: Seq<char>, key: Seq<char>, case: PathCase)
    ensures
        has_dir_key(paths.push(path), key, case) == (has_dir_key(paths, key, case) || has_path_key(
            ancestors(path),
            key,
            case,
        )),
{
    let all = paths.push(path);
    assert(needs_dir(path, key, case) == has_path_key(ancestors(path), key, case));
    if has_dir_key(paths, key, case) {
        let i = choose|i: int| 0 <= i < paths.len() && needs_dir(#[trigger] paths[i], key, case);
        assert(all[i] == paths[i]);
    }
    if needs_dir(path, key, case) {
        assert(all[paths.len() as int] == path);
    }
    if has_dir_key(all, key, case) {
        let i = choose|i: int| 0 <= i < all.len() && needs_dir(#[trigger] all[i], key, case);
        if i < paths.len() {
            assert(paths[i] == all[i]);
        }
    }
}

proof fn lemma_planned(
    files: Seq<XmlFile>,
    base: Seq<char>,
    output_dir: Seq<char>,
    reserved: Option<Seq<char>>,
    case: PathCase,
)
    requires
        planned(files, base, output_dir, reserved, case) is Ok,
    ensures
        ({
            let plan = planned(files, base, output_dir, reserved, case)->Ok_0;
            &&& is_faithful(plan, files, base, output_dir)
            &&& is_free_of_clashes(plan, case)
            &&& spares(plan, reserved, case)
            &&& books_agree(plan, reserved, case)
            &&& accounts_for(plan, files)
        }),
    decreases files.len(),
{
    let plan = planned(files, base, output_dir, reserved, case)->Ok_0;
    if files.len() == 0 {
        assert forall|k: Seq<char>| !has_path_key(plan.paths, k, case) && !has_dir_key(
            plan.paths,
            k,
            case,
        ) by {}
    } else {
        let head = files.drop_last();
        lemma_planned(head, base, output_dir, reserved, case);
        let before = planned(head, base, output_dir, reserved, case)->Ok_0;
        let file = files.last();
        if !has_dot_segment(file.name@) && percent::encoded_path(file.name@).len() > 0 {
            lemma_with_file(before, files, base, output_dir, reserved, case);
        } else {
            assert forall|i: int| 0 <= i < before.sources.len() implies files[#[trigger] before.sources[i]]
                == head[before.sources[i]] by {}
        }
    }
}

/// A plan downloads listed files, each from its own URL to its sanitized
/// name below the output directory, with its own size, time and hash, in the
/// order of the metadata.
pub proof fn plan_is_faithful(
    files: Seq<XmlFile>,
    base: Seq<char>,
    output_dir: Seq<char>,
    reserved: Option<Seq<char>>,
    case: PathCase,
)
    requires
        planned(files, base, output_dir, reserved, case) is Ok,
    ensures
        is_faithful(
            planned(files, base, output_dir, reserved, case)->Ok_0,
            files,
            base,
            output_dir,
        ),
{
    lemma_planned(files, base, output_dir, reserved, case);
}

/// In a plan no file overwrites another, and none is stored where another
/// needs a directory.
pub proof fn plan_is_free_of_clashes(
    files: Seq<XmlFile>,
    base: Seq<char>,
    output_dir: Seq<char>,
    reserved: Option<Seq<char>>,
    case: PathCase,
)
    requires
        planned(files, base, output_dir, reserved, case) is Ok,
    ensures
        is_free_of_clashes(planned(files, base, output_dir, reserved, case)->Ok_0, case),
{
    lemma_planned(files, base, output_dir, reserved, case);
}

/// A plan of a whole-item run leaves the saved metadata document alone.
pub proof fn plan_spares_the_metadata(
    files: Seq<XmlFile>,
    base: Seq<char>,
    output_dir: Seq<char>,
    reserved: Option<Seq<char>>,
    case: PathCase,
)
    requires
        planned(files, base, output_dir, reserved, case) is Ok,
    ensures
        spares(planned(files, base, output_dir, reserved, case)->Ok_0, reserved, case),
{
    lemma_planned(files, base, output_dir, reserved, case);
}

/// No file is left out of a plan without a warning.
pub proof fn plan_accounts_for_every_file(
    files: Seq<XmlFile>,
    base: Seq<char>,
    output_dir: Seq<char>,
    reserved: Option<Seq<char>>,
    case: PathCase,
)
    requires
        planned(files, base, output_dir, reserved, case) is Ok,
    ensures
        accounts_for(planned(files, base, output_dir, reserved, case)->Ok_0, files),
{
    lemma_planned(files, base, output_dir, reserved, case);
}

/// Every planned file is stored below the output directory: its path there
/// is not empty, and each component of it is safe.
pub proof fn planned_paths_stay_below(
    files: Seq<XmlFile>,
    base: Seq<char>,
    output_dir: Seq<char>,
    reserved: Option<Seq<char>>,
    case: PathCase,
    i: int,
)
    requires
        planned(files, base, output_dir, reserved, case) is Ok,
        0 <= i < planned(files, base, output_dir, reserved, case)->Ok_0.tasks.len(),
    ensures
        ({
            let plan = planned(files, base, output_dir, reserved, case)->Ok_0;
            &&& plan.tasks[i].path == below(output_dir, plan.paths[i])
            &&& plan.paths[i].len() > 0
            &&& forall|k: int|
                0 <= k < text::split(plan.paths[i], '/').len() ==> filename::is_safe(
                    #[trigger] text::split(plan.paths[i], '/')[k],
                )
        }),
{
    lemma_planned(files, base, output_dir, reserved, case);
    let plan = planned(files, base, output_dir, reserved, case)->Ok_0;
    let file = files[plan.sources[i]];
    assert(plan.tasks[i] == task_for(file, base, output_dir));
    assert(plan.paths[i] == filename::sanitized(file.name@));
    lemma_nameable_is_stored(file.name@);
    filename::lemma_sanitized_components(file.name@);
}

/// A name that encodes to something is stored under something.
proof fn lemma_nameable_is_stored(name: Seq<char>)
    requires
        !has_dot_segment(name),
        percent::encoded_path(name).len() > 0,
    ensures
        filename::sanitized(name).len() > 0,
{
    filename::lemma_sanitized_components(name);
    if filename::sanitized(name).len() == 0 {
        let pieces = text::split(name, '/');
        assert forall|i: int| 0 <= i < pieces.len() implies (#[trigger] pieces[i]).len() == 0 by {
            if pieces[i].len() > 0 {
                assert(!percent::is_dot_segment(pieces[i]));
                lemma_entry_is_kept(pieces, i);
            }
        }
        lemma_nothing_encodes(pieces);
    }
}

proof fn lemma_entry_is_kept(pieces: Seq<Seq<char>>, i: int)
    requires
        0 <= i < pieces.len(),
        filename::names_entry(pieces[i]),
    ensures
        filename::entries(pieces).len() > 0,
    decreases pieces.len(),
{
    reveal(Seq::filter);
    if i < pieces.len() - 1 {
        lemma_entry_is_kept(pieces.drop_last(), i);
    }
}

proof fn lemma_nothing_encodes(pieces: Seq<Seq<char>>)
    requires
        forall|i: int| 0 <= i < pieces.len() ==> (#[trigger] pieces[i]).len() == 0,
    ensures
        percent::encoded_segments(pieces).len() == 0,
    decreases pieces.len(),
{
    if pieces.len() > 0 {
        assert forall|i: int| 0 <= i < pieces.drop_last().len() implies (
        #[trigger] pieces.drop_last()[i]).len() == 0 by {
            assert(pieces[i].len() == 0);
        }
        lemma_nothing_encodes(pieces.drop_last());
        assert(pieces[pieces.len() - 1].len() == 0);
        assert(percent::encoded(pieces.last()).len() == 0);
    }
}

// ---------------------------------------------------------------------------
// What selecting and measuring promise
// ---------------------------------------------------------------------------

/// How many of the files bear a name.
pub open spec fn times_listed(files: Seq<XmlFile>, name: Seq<char>) -> nat
    decreases files.len(),
{
    if files.len() == 0 {
        0
    } else {
        times_listed(files.drop_last(), name) + if files.last().name@ == name {
            1nat
        } else {
            0
        }
    }
}

/// A whole-item run is about every listed file but those of the metadata's
/// own name: each is there as often as it is listed, in the order of the
/// list, and nothing else is.
pub proof fn every_other_file_is_wanted(files: Seq<XmlFile>, xml_file_name: Seq<char>)
    ensures
        forall|i: int|
            0 <= i < files.len() && (#[trigger] files[i]).name@ != xml_file_name
                ==> without_metadata(files, xml_file_name).contains(files[i]),
        forall|i: int|
            0 <= i < without_metadata(files, xml_file_name).len() ==> (#[trigger] without_metadata(
                files,
                xml_file_name,
            )[i]).name@ != xml_file_name && files.contains(
                without_metadata(files, xml_file_name)[i],
            ),
        without_metadata(files, xml_file_name).len() + times_listed(files, xml_file_name)
            == files.len(),
    decreases files.len(),
{
    reveal(Seq::filter);
    if files.len() > 0 {
        let head = files.drop_last();
        let kept = without_metadata(files, xml_file_name);
        let before = without_metadata(head, xml_file_name);
        every_other_file_is_wanted(head, xml_file_name);
        assert forall|i: int|
            0 <= i < files.len() && (#[trigger] files[i]).name@
                != xml_file_name implies kept.contains(files[i]) by {
            if i < head.len() {
                assert(head[i] == files[i]);
                let k = choose|k: int| 0 <= k < before.len() && before[k] == head[i];
                assert(kept[k] == files[i]);
            } else {
                assert(kept[kept.len() - 1] == files[i]);
            }
        }
        assert forall|i: int| 0 <= i < kept.len() implies (#[trigger] kept[i]).name@
            != xml_file_name && files.contains(kept[i]) by {
            if i < before.len() {
                assert(kept[i] == before[i]);
                let k = choose|k: int| 0 <= k < head.len() && head[k] == before[i];
                assert(files[k] == kept[i]);
            } else {
                assert(files[files.len() - 1] == kept[i]);
            }
        }
    }
}

/// Selecting goes file by file: what a list gives is what its first part
/// gives and then what its second part gives, and one file is wanted exactly
/// where its name is not the metadata's.
pub proof fn wanted_files_keep_their_order(
    a: Seq<XmlFile>,
    b: Seq<XmlFile>,
    file: XmlFile,
    xml_file_name: Seq<char>,
)
    ensures
        without_metadata(a + b, xml_file_name) == without_metadata(a, xml_file_name)
            + without_metadata(b, xml_file_name),
        without_metadata(seq![file], xml_file_name) == (if file.name@ == xml_file_name {
            Seq::empty()
        } else {
            seq![file]
        }),
    decreases b.len(),
{
    reveal(Seq::filter);
    assert(seq![file].drop_last() =~= Seq::<XmlFile>::empty());
    assert(without_metadata(Seq::empty(), xml_file_name) =~= Seq::empty());
    if file.name@ != xml_file_name {
        assert(without_metadata(seq![file], xml_file_name) =~= seq![file]);
    }
    if b.len() == 0 {
        assert(a + b =~= a);
        assert(without_metadata(b, xml_file_name) =~= Seq::empty());
    } else {
        assert((a + b).drop_last() =~= a + b.drop_last());
        wanted_files_keep_their_order(a, b.drop_last(), file, xml_file_name);
        assert(without_metadata(a + b, xml_file_name) =~= without_metadata(a, xml_file_name)
            + without_metadata(b, xml_file_name));
    }
}

/// A file that a URL names is the first listed under that name; a name that
/// is not listed is not found.
pub proof fn the_first_of_a_name_is_selected(files: Seq<XmlFile>, name: Seq<char>)
    ensures
        0 <= name_position(files, name) <= files.len(),
        name_position(files, name) < files.len() ==> files[name_position(files, name)].name@
            == name,
        forall|i: int|
            0 <= i < name_position(files, name) && i < files.len() ==> (#[trigger] files[i]).name@
                != name,
    decreases files.len(),
{
    if files.len() > 0 && files.first().name@ != name {
        let rest = files.skip(1);
        the_first_of_a_name_is_selected(rest, name);
        assert forall|i: int|
            0 <= i < name_position(files, name) && i < files.len() implies (
        #[trigger] files[i]).name@ != name by {
            if i > 0 {
                assert(rest[i - 1] == files[i]);
            }
        }
        if name_position(files, name) < files.len() {
            assert(rest[name_position(rest, name)] == files[name_position(files, name)]);
        }
    }
}

/// What a task still has to write depends on its size and on what is on disk
/// alone. Where no file of that size is there, it is the size less what the
/// partial file has; where one is, it is the size less what removing that
/// frees. A hard link frees nothing; a file that stands alone its blocks, or
/// its length where the system does not tell them.
pub proof fn space_is_the_size_less_what_is_there(task: DownloadTask, disk: TaskDisk, size: u64)
    requires
        task.expected_size == Some(size),
    ensures
        (disk.final_file matches Some(file) ==> file.len != size) && disk.part_len is None
            ==> remaining(task, disk) == size,
        (disk.final_file matches Some(file) ==> file.len != size) ==> (disk.part_len
            matches Some(len) ==> remaining(task, disk) == (if len <= size {
            size - len
        } else {
            0
        })),
        disk.final_file matches Some(file) ==> (file.len == size ==> match file.allocation {
            None => remaining(task, disk) == 0,
            Some(a) => if a.links > 1 {
                remaining(task, disk) == size
            } else if a.blocks * 512 >= size {
                remaining(task, disk) == 0
            } else {
                remaining(task, disk) == size - a.blocks * 512
            },
        }),
{
}

/// A task of unknown size is not counted.
pub proof fn unknown_sizes_are_not_counted(task: DownloadTask, disk: TaskDisk)
    requires
        task.expected_size is None,
    ensures
        remaining(task, disk) == 0,
{
}

/// The space of two lists of tasks is that of each added up, and that of one
/// task its own.
pub proof fn space_adds_up(
    a: Seq<DownloadTask>,
    b: Seq<DownloadTask>,
    da: Seq<TaskDisk>,
    db: Seq<TaskDisk>,
    task: DownloadTask,
    disk: TaskDisk,
)
    requires
        a.len() == da.len(),
        b.len() == db.len(),
    ensures
        remaining_total(a + b, da + db) == remaining_total(a, da) + remaining_total(b, db),
        remaining_total(seq![task], seq![disk]) == remaining(task, disk),
        remaining_total(Seq::empty(), Seq::empty()) == 0,
    decreases b.len(),
{
    assert(seq![task].drop_last() =~= Seq::<DownloadTask>::empty());
    assert(remaining_total(Seq::empty(), seq![disk].drop_last()) == 0);
    if b.len() == 0 {
        assert(a + b =~= a);
        assert(da + db =~= da);
    } else {
        assert((a + b).drop_last() =~= a + b.drop_last());
        assert((da + db).drop_last() =~= da + db.drop_last());
        space_adds_up(a, b.drop_last(), da, db.drop_last(), task, disk);
    }
}

// ---------------------------------------------------------------------------
// What is left out of a plan, and why
// ---------------------------------------------------------------------------

/// A path below the output directory is that directory, a separator and the
/// path; with no directory, the path itself.
pub proof fn paths_go_below_the_directory(output_dir: Seq<char>, path: Seq<char>)
    ensures
        output_dir.len() == 0 ==> below(output_dir, path) == path,
        output_dir.len() > 0 ==> below(output_dir, path) == output_dir + "/"@ + path,
        key_of(path, PathCase::Sensitive) == path,
        key_of(path, PathCase::Insensitive) == lowercase(path),
{
}

/// The directories that a path implies are those that it goes on from with a
/// separator, and no others.
pub proof fn implied_directories_are_the_ways_to_a_path(path: Seq<char>, dir: Seq<char>)
    ensures
        ancestors(path).contains(dir) <==> (dir + "/"@).is_prefix_of(path),
{
    reveal_strlit("/");
    assert("/"@ =~= seq!['/']);
    let parts = text::split(path, '/');
    let sep = seq!['/'];
    text::lemma_split_pieces(path, '/');
    text::lemma_join_split(path, '/');
    if ancestors(path).contains(dir) {
        let i = choose|i: int| 0 <= i < ancestors(path).len() && ancestors(path)[i] == dir;
        let a = parts.take(i + 1);
        let b = parts.skip(i + 1);
        assert(a + b =~= parts);
        text::joining_goes_piece_by_piece(a, b, sep);
        assert(path == dir + sep + text::join(b, sep));
        assert(path.subrange(0, (dir + "/"@).len() as int) =~= dir + "/"@);
    }
    if (dir + "/"@).is_prefix_of(path) {
        let rest = path.skip((dir.len() + 1) as int);
        assert(path =~= dir + sep + rest);
        let a = text::split(dir, '/');
        let b = text::split(rest, '/');
        text::lemma_split_pieces(dir, '/');
        text::lemma_split_pieces(rest, '/');
        text::lemma_join_split(dir, '/');
        text::lemma_join_split(rest, '/');
        text::joining_goes_piece_by_piece(a, b, sep);
        assert(text::join(a + b, sep) == path);
        let all = a + b;
        assert forall|i: int| 0 <= i < all.len() implies !(#[trigger] all[i]).contains('/') by {
            if i < a.len() {
                assert(all[i] == a[i]);
            } else {
                assert(all[i] == b[i - a.len()]);
            }
        }
        text::lemma_split_join(all, '/');
        assert(parts == all);
        assert(parts.take(a.len() as int) =~= a);
        assert(ancestors(path)[a.len() - 1] == dir);
    }
}

/// Whether two paths cannot both be there: they are the same to the file
/// system, or one is a directory that the other needs.
pub open spec fn is_in_the_way(path: Seq<char>, other: Seq<char>, case: PathCase) -> bool {
    key_of(path, case) == key_of(other, case) || needs_dir(path, key_of(other, case), case)
        || needs_dir(other, key_of(path, case), case)
}

/// Whether a file is left out of a plan with cause: no URL can name it, or
/// the metadata document or an earlier planned file is in its way.
pub open spec fn is_left_out_with_cause(
    plan: PlanView,
    file: XmlFile,
    reserved: Option<Seq<char>>,
    case: PathCase,
) -> bool {
    ||| exists|k: int|
        0 <= k < text::split(file.name@, '/').len() && (#[trigger] text::split(file.name@, '/')[k]
            == "."@ || text::split(file.name@, '/')[k] == ".."@)
    ||| percent::encoded_path(file.name@).len() == 0
    ||| reserved matches Some(name) && (key_of(filename::sanitized(file.name@), case) == key_of(
        name,
        case,
    ) || needs_dir(filename::sanitized(file.name@), key_of(name, case), case))
    ||| exists|t: int|
        0 <= t < plan.paths.len() && is_in_the_way(
            filename::sanitized(file.name@),
            #[trigger] plan.paths[t],
            case,
        )
}

proof fn lemma_first_taken_is_taken(
    paths: Seq<Seq<char>>,
    taken: Map<Seq<char>, Seq<char>>,
    case: PathCase,
)
    requires
        first_taken(paths, taken, case) is Some,
    ensures
        exists|a: int| 0 <= a < paths.len() && taken.contains_key(key_of(#[trigger] paths[a], case)),
    decreases paths.len(),
{
    if taken.contains_key(key_of(paths.first(), case)) {
        assert(taken.contains_key(key_of(paths[0], case)));
    } else {
        let rest = paths.skip(1);
        lemma_first_taken_is_taken(rest, taken, case);
        let a = choose|a: int|
            0 <= a < rest.len() && taken.contains_key(key_of(#[trigger] rest[a], case));
        assert(paths[a + 1] == rest[a]);
    }
}

proof fn lemma_clash_has_a_cause(
    plan: PlanView,
    file: XmlFile,
    reserved: Option<Seq<char>>,
    case: PathCase,
)
    requires
        books_agree(plan, reserved, case),
        clash(filename::sanitized(file.name@), plan.files, plan.dirs, case) is Some,
    ensures
        is_left_out_with_cause(plan, file, reserved, case),
{
    let stored = filename::sanitized(file.name@);
    let key = key_of(stored, case);
    if plan.files.contains_key(key) {
        if has_path_key(plan.paths, key, case) {
            let t = choose|t: int|
                0 <= t < plan.paths.len() && key_of(#[trigger] plan.paths[t], case) == key;
            assert(is_in_the_way(stored, plan.paths[t], case));
        }
    } else if first_taken(ancestors(stored), plan.files, case) is Some {
        lemma_first_taken_is_taken(ancestors(stored), plan.files, case);
        let a = choose|a: int|
            0 <= a < ancestors(stored).len() && plan.files.contains_key(
                key_of(#[trigger] ancestors(stored)[a], case),
            );
        let k = key_of(ancestors(stored)[a], case);
        assert(needs_dir(stored, k, case));
        if has_path_key(plan.paths, k, case) {
            let t = choose|t: int|
                0 <= t < plan.paths.len() && key_of(#[trigger] plan.paths[t], case) == k;
            assert(is_in_the_way(stored, plan.paths[t], case));
        }
    } else {
        assert(plan.dirs.contains_key(key));
        let t = choose|t: int| 0 <= t < plan.paths.len() && needs_dir(
            #[trigger] plan.paths[t],
            key,
            case,
        );
        assert(is_in_the_way(stored, plan.paths[t], case));
    }
}

/// Every listed file is planned, or left out with cause. A file that a URL
/// can name, and that nothing is in the way of, is always downloaded.
pub proof fn files_are_left_out_with_cause(
    files: Seq<XmlFile>,
    base: Seq<char>,
    output_dir: Seq<char>,
    reserved: Option<Seq<char>>,
    case: PathCase,
    i: int,
)
    requires
        planned(files, base, output_dir, reserved, case) is Ok,
        0 <= i < files.len(),
    ensures
        planned(files, base, output_dir, reserved, case)->Ok_0.sources.contains(i)
            || is_left_out_with_cause(
            planned(files, base, output_dir, reserved, case)->Ok_0,
            files[i],
            reserved,
            case,
        ),
    decreases files.len(),
{
    let plan = planned(files, base, output_dir, reserved, case)->Ok_0;
    let head = files.drop_last();
    let before = planned(head, base, output_dir, reserved, case)->Ok_0;
    lemma_planned(head, base, output_dir, reserved, case);
    assert(before.paths.is_prefix_of(plan.paths));
    assert(before.sources.is_prefix_of(plan.sources));
    if i < head.len() {
        files_are_left_out_with_cause(head, base, output_dir, reserved, case, i);
        assert(head[i] == files[i]);
        if before.sources.contains(i) {
            let k = choose|k: int| 0 <= k < before.sources.len() && before.sources[k] == i;
            assert(plan.sources[k] == i);
        } else {
            lemma_causes_stay(before, plan, files[i], reserved, case);
        }
    } else {
        let file = files[i];
        assert(file == files.last());
        if has_dot_segment(file.name@) {
            let k = choose|k: int|
                0 <= k < text::split(file.name@, '/').len() && percent::is_dot_segment(
                    #[trigger] text::split(file.name@, '/')[k],
                );
            assert(text::split(file.name@, '/')[k] == "."@ || text::split(file.name@, '/')[k]
                == ".."@);
        } else if percent::encoded_path(file.name@).len() > 0 {
            if clash(filename::sanitized(file.name@), before.files, before.dirs, case) is Some {
                lemma_clash_has_a_cause(before, file, reserved, case);
                lemma_causes_stay(before, plan, file, reserved, case);
            } else {
                assert(plan.sources[plan.sources.len() - 1] == i);
            }
        }
    }
}

proof fn lemma_causes_stay(
    before: PlanView,
    plan: PlanView,
    file: XmlFile,
    reserved: Option<Seq<char>>,
    case: PathCase,
)
    requires
        is_left_out_with_cause(before, file, reserved, case),
        before.paths.is_prefix_of(plan.paths),
    ensures
        is_left_out_with_cause(plan, file, reserved, case),
{
    let stored = filename::sanitized(file.name@);
    if exists|t: int|
        0 <= t < before.paths.len() && is_in_the_way(stored, #[trigger] before.paths[t], case) {
        let t = choose|t: int|
            0 <= t < before.paths.len() && is_in_the_way(stored, #[trigger] before.paths[t], case);
        assert(plan.paths[t] == before.paths[t]);
    }
}

/// How many of the files that a URL can name are stored under another name.
pub open spec fn renamed(files: Seq<XmlFile>) -> nat
    decreases files.len(),
{
    if files.len() == 0 {
        0
    } else {
        let name = files.last().name@;
        renamed(files.drop_last()) + if !has_dot_segment(name) && percent::encoded_path(name).len()
            > 0 && filename::sanitized(name) != name {
            1nat
        } else {
            0
        }
    }
}

/// A plan counts the names that are stored under another, and has a warning
/// for each file that is left out and for each of these.
pub proof fn renamed_files_are_counted(
    files: Seq<XmlFile>,
    base: Seq<char>,
    output_dir: Seq<char>,
    reserved: Option<Seq<char>>,
    case: PathCase,
)
    requires
        planned(files, base, output_dir, reserved, case) is Ok,
    ensures
        ({
            let plan = planned(files, base, output_dir, reserved, case)->Ok_0;
            plan.sanitized == renamed(files) && plan.warnings.len() == renamed(files) + (
            files.len() - plan.tasks.len())
        }),
    decreases files.len(),
{
    lemma_planned(files, base, output_dir, reserved, case);
    if files.len() > 0 {
        renamed_files_are_counted(files.drop_last(), base, output_dir, reserved, case);
    }
}

/// A plan fails exactly where the URL of a file that is neither left out for
/// its name nor behind such a failure cannot be built.
pub proof fn plans_fail_on_urls_alone(
    files: Seq<XmlFile>,
    base: Seq<char>,
    output_dir: Seq<char>,
    reserved: Option<Seq<char>>,
    case: PathCase,
)
    ensures
        planned(files, base, output_dir, reserved, case) is Ok <==> forall|i: int|
            0 <= i < files.len() ==> has_dot_segment((#[trigger] files[i]).name@)
                || percent::encoded_path(files[i].name@).len() == 0 || link::joined_url(
                base,
                percent::encoded_path(files[i].name@),
            ) is Ok,
    decreases files.len(),
{
    if files.len() > 0 {
        let head = files.drop_last();
        plans_fail_on_urls_alone(head, base, output_dir, reserved, case);
        assert forall|i: int| 0 <= i < head.len() implies #[trigger] head[i] == files[i] by {}
        assert forall|i: int| 0 <= i < head.len() implies head[i] == #[trigger] files[i] by {}
        assert(files[files.len() - 1] == files.last());
    }
}

/// A planned task carries its file's facts: its URL is the name joined to
/// the metadata's address, its path the stored name below the directory, and
/// its hash, size and time are those listed.
pub proof fn tasks_carry_their_files_facts(
    files: Seq<XmlFile>,
    base: Seq<char>,
    output_dir: Seq<char>,
    reserved: Option<Seq<char>>,
    case: PathCase,
    i: int,
)
    requires
        planned(files, base, output_dir, reserved, case) is Ok,
        0 <= i < planned(files, base, output_dir, reserved, case)->Ok_0.tasks.len(),
    ensures
        ({
            let plan = planned(files, base, output_dir, reserved, case)->Ok_0;
            let task = plan.tasks[i];
            let file = files[plan.sources[i]];
            &&& 0 <= plan.sources[i] < files.len()
            &&& link::joined_url(base, percent::encoded_path(file.name@)) matches Ok(url)
                && task.url == url.0
            &&& task.path == below(output_dir, filename::sanitized(file.name@))
            &&& match file.md5 {
                Some(hash) => task.md5 == Some(hash@),
                None => task.md5 is None,
            }
            &&& task.size == file.size
            &&& task.mtime == file.mtime
        }),
{
    plan_is_faithful(files, base, output_dir, reserved, case);
    let plan = planned(files, base, output_dir, reserved, case)->Ok_0;
    assert(plan.sources[i] < files.len());
    assert(is_nameable(files[plan.sources[i]], base));
    assert(plan.tasks[i] == task_for(files[plan.sources[i]], base, output_dir));
}

/// Planning goes file by file: one more file leaves the tasks and warnings
/// before it as they are. Where it is stored under another name, or left
/// out, a warning names it; the last of them says which.
pub proof fn warnings_name_their_file(
    files: Seq<XmlFile>,
    file: XmlFile,
    base: Seq<char>,
    output_dir: Seq<char>,
    reserved: Option<Seq<char>>,
    case: PathCase,
)
    requires
        planned(files.push(file), base, output_dir, reserved, case) is Ok,
    ensures
        planned(files, base, output_dir, reserved, case) is Ok,
        ({
            let before = planned(files, base, output_dir, reserved, case)->Ok_0;
            let after = planned(files.push(file), base, output_dir, reserved, case)->Ok_0;
            let stored = filename::sanitized(file.name@);
            let said = after.warnings.last();
            &&& before.tasks.is_prefix_of(after.tasks)
            &&& before.warnings.is_prefix_of(after.warnings)
            &&& after.tasks.len() <= before.tasks.len() + 1
            &&& after.tasks.len() == before.tasks.len() ==> after.warnings.len()
                > before.warnings.len() && said.contains((file.name@, Style::Dimmed)) && (said[2].0
                == "Skipped:"@ || said[2].0 == "Collision:"@)
            &&& after.tasks.len() > before.tasks.len() && stored != file.name@
                ==> after.warnings.len() == before.warnings.len() + 1 && said.contains(
                (file.name@, Style::Dimmed),
            ) && said.contains((stored, Style::Bold)) && said[2].0 == "Sanitized:"@
            &&& after.tasks.len() > before.tasks.len() && stored == file.name@ ==> after.warnings
                == before.warnings
        }),
{
    assert(files.push(file).drop_last() =~= files);
    let before = planned(files, base, output_dir, reserved, case)->Ok_0;
    let after = planned(files.push(file), base, output_dir, reserved, case)->Ok_0;
    let stored = filename::sanitized(file.name@);
    reveal_strlit("Skipped");
    reveal_strlit("Skipped:");
    reveal_strlit("Collision");
    reveal_strlit("Collision:");
    reveal_strlit("Sanitized");
    reveal_strlit("Sanitized:");
    reveal_strlit(":");
    assert("Skipped"@ + ":"@ =~= "Skipped:"@);
    assert("Collision"@ + ":"@ =~= "Collision:"@);
    assert("Sanitized"@ + ":"@ =~= "Sanitized:"@);
    assert(after.tasks.take(before.tasks.len() as int) =~= before.tasks);
    assert(after.warnings.take(before.warnings.len() as int) =~= before.warnings);
    let dots = skipped_warning(file.name@, " (dot-segment name)"@);
    let empty = skipped_warning(file.name@, " (empty name)"@);
    let sanitized = sanitized_warning(file.name@, stored);
    assert(dots[4] == (file.name@, Style::Dimmed));
    assert(empty[4] == (file.name@, Style::Dimmed));
    assert(sanitized[4] == (file.name@, Style::Dimmed));
    assert(sanitized[6] == (stored, Style::Bold));
    if let Some((at, first)) = clash(stored, before.files, before.dirs, case) {
        let collision = collision_warning(file.name@, first, at);
        assert(collision[4] == (file.name@, Style::Dimmed));
    }
}

/// A collision names the file that is left out, the one that was there
/// first and where, in that order.
pub proof fn collisions_name_both_files(name: Seq<char>, first: Seq<char>, at: Seq<char>)
    ensures
        collision_warning(name, first, at)[4].0 == name,
        collision_warning(name, first, at)[6].0 == first,
        collision_warning(name, first, at)[8].0 == at,
        skipped_warning(name, at)[4].0 == name,
        skipped_warning(name, at).last().0 == at,
{
}

/// A whole-item run keeps the last segment of the metadata's path for the
/// metadata; a run for a file keeps nothing.
pub proof fn the_metadata_name_is_reserved(
    base_url: Link,
    target: ArchiveTarget,
    dir: Seq<char>,
    name: Seq<char>,
)
    requires
        base_url.path@ == dir + seq!['/'] + name,
        !name.contains('/'),
    ensures
        target.file_path is None ==> reserved_name(base_url, target) == Some(name),
        target.file_path is Some ==> reserved_name(base_url, target) is None,
{
    text::lemma_split_append(dir, name, '/');
}

} // verus!
