//! One run of the tool: its settings, its plan, and what it announces.

use crate::archive_metadata;
use crate::archive_metadata::{list_file_rows, list_summary, ArchiveTarget, XmlFile, XmlFiles};
use crate::check::CheckReport;
use crate::display;
use crate::display::{
    count_line, filename_line, format_size, last_glyph, print_downloaded_line,
};
use crate::downloader::rate;
use crate::downloader::rate::parse_rate;
use crate::downloader::DownloadTask;
use crate::error::IaGetError;
use crate::file_filter::FileFilter;
use crate::link::Link;
use crate::plan;
use crate::plan::{
    plan_download_tasks, required_download_space, select_files, DownloadPlan, PathCase, TaskDisk,
};
use crate::styled;
use crate::styled::{Line, Style};
use crate::text;
use crate::text::Trim;
use vstd::prelude::*;

verus! {

// ---------------------------------------------------------------------------
// The proxy
// ---------------------------------------------------------------------------

/// What `reqwest::Proxy::all` objects to a URL; nothing where it takes it.
pub uninterp spec fn proxy_fault(url: Seq<char>) -> Option<Seq<char>>;

/// Making a proxy of a URL (`reqwest::Proxy::all`): the objection is the one
/// named.
#[verifier::external_body]
fn proxy_objection(url: &str) -> (r: Option<String>)
    ensures
        text::maybe(r) == proxy_fault(url@),
{
    reqwest::Proxy::all(url).err().map(|e| e.to_string())
}

/// What a string slice reads, where there is one.
pub open spec fn given(value: Option<&str>) -> Option<Seq<char>> {
    match value {
        Some(v) => Some(v@),
        None => None,
    }
}

/// Whether a setting says anything.
pub open spec fn says_something(value: Option<Seq<char>>) -> bool {
    value matches Some(v) && text::trim(v, Trim::Space).len() > 0
}

/// The proxy that is asked for: the explicit one, else that of the first
/// environment variable, else that of the second.
pub open spec fn chosen_proxy(
    explicit: Option<Seq<char>>,
    first: Option<Seq<char>>,
    second: Option<Seq<char>>,
) -> Option<Seq<char>> {
    if says_something(explicit) {
        explicit
    } else if says_something(first) {
        first
    } else if says_something(second) {
        second
    } else {
        None
    }
}

/// A proxy as a URL: one without a scheme is an HTTP proxy.
pub open spec fn proxy_url(raw: Seq<char>) -> Seq<char> {
    if text::holds_part(raw, "://"@) {
        raw
    } else {
        "http://"@ + raw
    }
}

/// What is said of a proxy that cannot be used.
pub open spec fn proxy_complaint(raw: Seq<char>, objection: Seq<char>) -> Seq<char> {
    "cannot use proxy "@ + text::quoted(raw) + ": "@ + objection
}

fn is_set(value: Option<&str>) -> (r: bool)
    ensures
        r == says_something(given(value)),
{
    match value {
        Some(v) => {
            let trimmed = text::trim_both(&text::chars_of(v), Trim::Space);
            trimmed.len() > 0
        },
        None => false,
    }
}

/// The proxy that is asked for.
pub fn choose_proxy<'a>(
    explicit: Option<&'a str>,
    https_proxy_upper: Option<&'a str>,
    https_proxy_lower: Option<&'a str>,
) -> (r: Option<&'a str>)
    ensures
        given(r) == chosen_proxy(
            given(explicit),
            given(https_proxy_upper),
            given(https_proxy_lower),
        ),
{
    if is_set(explicit) {
        explicit
    } else if is_set(https_proxy_upper) {
        https_proxy_upper
    } else if is_set(https_proxy_lower) {
        https_proxy_lower
    } else {
        None
    }
}

/// The URL of the proxy, given what is asked for and what the client objects
/// to its URL.
pub fn settle_proxy(raw: &str, objection: Option<String>) -> (r: Result<String, IaGetError>)
    ensures
        match objection {
            None => r matches Ok(url) && url@ == proxy_url(raw@),
            Some(o) => r matches Err(e) && (e matches IaGetError::InvalidProxy(detail) && detail@
                == proxy_complaint(raw@, o@)),
        },
{
    match objection {
        None => Ok(proxy_as_url(raw)),
        Some(o) => {
            let mut detail = text::concat("cannot use proxy ", &text::quote(raw));
            detail.append(": ");
            detail.append(&o);
            Err(IaGetError::InvalidProxy(detail))
        },
    }
}

fn proxy_as_url(raw: &str) -> (r: String)
    ensures
        r@ == proxy_url(raw@),
{
    if text::has_part(raw, "://") {
        raw.to_owned()
    } else {
        text::concat("http://", raw)
    }
}

/// The URL of the proxy that the session uses, if any: an explicit one always
/// wins, otherwise the environment's is used.
pub fn resolve_proxy(
    explicit: Option<&str>,
    https_proxy_upper: Option<&str>,
    https_proxy_lower: Option<&str>,
) -> (r: Result<Option<String>, IaGetError>)
    ensures
        match chosen_proxy(given(explicit), given(https_proxy_upper), given(https_proxy_lower)) {
            None => r matches Ok(None),
            Some(raw) => match proxy_fault(proxy_url(raw)) {
                None => r matches Ok(Some(url)) && url@ == proxy_url(raw),
                Some(objection) => r matches Err(e) && (e matches IaGetError::InvalidProxy(detail)
                    && detail@ == proxy_complaint(raw, objection)),
            },
        },
{
    match choose_proxy(explicit, https_proxy_upper, https_proxy_lower) {
        None => Ok(None),
        Some(raw) => {
            let objection = proxy_objection(&proxy_as_url(raw));
            match settle_proxy(raw, objection) {
                Ok(url) => Ok(Some(url)),
                Err(e) => Err(e),
            }
        },
    }
}

// ---------------------------------------------------------------------------
// The rate limit
// ---------------------------------------------------------------------------

/// The limit in bytes per second; none where it is not given. A limit of zero
/// is none, and is kept as it is. `number` is what `rate_number` gives, read
/// as a double-precision number, by its bits.
pub fn parse_rate_limit(input: Option<&str>, number: Option<u64>) -> (r: Result<
    Option<u64>,
    IaGetError,
>)
    ensures
        match input {
            None => r matches Ok(None),
            Some(text) => match rate::rate_number_of(text@) {
                None => r matches Err(e) && (e matches IaGetError::InvalidRate(t) && t@ == text@),
                Some(_) => match number {
                    None => r matches Err(e) && (e matches IaGetError::InvalidRate(t) && t@
                        == rate::no_number(text@)),
                    Some(bits) => if !rate::is_finite(bits) || rate::is_negative(bits) {
                        r matches Err(e) && (e matches IaGetError::InvalidRate(t) && t@ == text@)
                    } else {
                        r matches Ok(Some(limit)) && limit == rate::bytes_per_sec(
                            bits,
                            rate::number_and_scale(text::trim(text@, Trim::Space)).1,
                        )
                    },
                },
            },
        },
{
    match input {
        None => Ok(None),
        Some(text) => match parse_rate(text, number) {
            Ok(limit) => Ok(Some(limit)),
            Err(e) => Err(e),
        },
    }
}

/// What is logged of a rate limit.
pub open spec fn rate_message(limit: u64) -> Seq<char> {
    "rate limit: "@ + text::decimal(limit as nat) + " bytes/s (~"@ + display::size_words(
        limit as nat,
    ) + "/s)"@
}

/// What is logged of a rate limit; nothing of no limit.
pub fn rate_limit_message(limit: Option<u64>) -> (r: Option<String>)
    ensures
        text::maybe(r) == (match limit {
            Some(n) => if n > 0 {
                Some(rate_message(n))
            } else {
                None
            },
            None => None,
        }),
{
    match limit {
        Some(n) => {
            if n == 0 {
                return None;
            }
            let mut message = "rate limit: ".to_owned();
            text::push_decimal(&mut message, n);
            message.append(" bytes/s (~");
            message.append(&format_size(n));
            message.append("/s)");
            Some(message)
        },
        None => None,
    }
}

// ---------------------------------------------------------------------------
// The output directory
// ---------------------------------------------------------------------------

/// Whether a text is the bare root of a Windows drive without its separator.
pub open spec fn is_drive(s: Seq<char>) -> bool {
    s.len() == 2 && s[1] == ':' && text::is_alphanumeric(s[0]) && !text::is_digit(s[0])
}

/// The directory that an argument names: without the separators at its end,
/// which a drive's root keeps on Windows; nothing where it is nothing but
/// separators.
pub open spec fn named_dir(arg: Seq<char>, windows: bool) -> Option<Seq<char>> {
    let trimmed = text::trim_back(arg, Trim::Separator);
    if windows && is_drive(trimmed) {
        Some(trimmed + "\\"@)
    } else if trimmed.len() == 0 {
        None
    } else {
        Some(trimmed)
    }
}

/// The directory that the files land in: nothing for the current directory.
pub fn normalize_output_dir(arg: Option<&str>, windows: bool) -> (r: Result<String, IaGetError>)
    ensures
        match arg {
            None => r matches Ok(dir) && dir@.len() == 0,
            Some(text) => match named_dir(text@, windows) {
                Some(dir) => r matches Ok(d) && d@ == dir,
                None => r matches Err(e) && (e matches IaGetError::InvalidOutputDir(t) && t@
                    == text@),
            },
        },
{
    let dir = match arg {
        None => return Ok(String::new()),
        Some(dir) => dir,
    };
    let trimmed = text::trim_end(&text::chars_of(dir), Trim::Separator);
    if windows && trimmed.len() == 2 && trimmed[1] == ':' && text::is_ascii_alphanumeric(trimmed[0])
        && !((trimmed[0] as u32) >= 0x30 && (trimmed[0] as u32) <= 0x39) {
        return Ok(text::concat(&text::text_of(&trimmed), "\\"));
    }
    if trimmed.len() == 0 {
        return Err(IaGetError::InvalidOutputDir(dir.to_owned()));
    }
    Ok(text::text_of(&trimmed))
}

/// The directory that is looked at for an output directory.
pub open spec fn probed_dir(output_dir: Seq<char>) -> Seq<char> {
    if output_dir.len() == 0 {
        "."@
    } else {
        output_dir
    }
}

/// The directory that is looked at for an output directory.
pub fn probe_directory(output_dir: &str) -> (r: String)
    ensures
        r@ == probed_dir(output_dir@),
{
    if output_dir.is_empty() {
        ".".to_owned()
    } else {
        output_dir.to_owned()
    }
}

/// Fails where the directory to check is not there: unlike a download, a
/// check makes none.
pub fn check_directory_exists(output_dir: &str, exists: bool) -> (r: Result<(), IaGetError>)
    ensures
        r is Ok <==> exists,
        r matches Err(e) ==> (e matches IaGetError::CheckDirectoryNotFound(path) && path@
            == probed_dir(output_dir@)),
{
    if exists {
        Ok(())
    } else {
        Err(IaGetError::CheckDirectoryNotFound(probe_directory(output_dir)))
    }
}

// ---------------------------------------------------------------------------
// The disk space
// ---------------------------------------------------------------------------

/// Fails where the downloads clearly do not fit: more bytes have to be
/// written than are free. Nothing is compared where nothing has to be
/// written, or where what is free is not known.
pub fn check_disk_space(
    output_dir: &str,
    tasks: &Vec<DownloadTask>,
    disk: &Vec<TaskDisk>,
    available: Option<u64>,
) -> (r: Result<(), IaGetError>)
    requires
        tasks@.len() == disk@.len(),
        plan::remaining_total(tasks@, disk@) <= u64::MAX,
    ensures
        ({
            let required = plan::remaining_total(tasks@, disk@);
            if required > 0 && available is Some && available->0 < required {
                r matches Err(e) && (e matches IaGetError::InsufficientDiskSpace {
                    required: need,
                    available: free,
                    path,
                } && need@ == display::size_words(required) && free@ == display::size_words(
                    available->0 as nat,
                ) && path@ == probed_dir(output_dir@))
            } else {
                r is Ok
            }
        }),
{
    let required: u64 = required_download_space(tasks, disk);
    if required == 0 {
        return Ok(());
    }
    if let Some(free) = available {
        if free < required {
            return Err(
                IaGetError::InsufficientDiskSpace {
                    required: format_size(required),
                    available: format_size(free),
                    path: probe_directory(output_dir),
                },
            );
        }
    }
    Ok(())
}

/// What is logged of the disk space.
pub open spec fn space_message(
    output_dir: Seq<char>,
    required: nat,
    available: nat,
) -> Seq<char> {
    "disk space in "@ + probed_dir(output_dir) + ": need ~"@ + display::size_words(required)
        + ", "@ + display::size_words(available) + " free"@
}

/// What is logged of the disk space.
pub fn disk_space_message(output_dir: &str, required: u64, available: u64) -> (r: String)
    ensures
        r@ == space_message(output_dir@, required as nat, available as nat),
{
    let mut message = text::concat("disk space in ", &probe_directory(output_dir));
    message.append(": need ~");
    message.append(&format_size(required));
    message.append(", ");
    message.append(&format_size(available));
    message.append(" free");
    message
}

// ---------------------------------------------------------------------------
// The plan
// ---------------------------------------------------------------------------

/// The files that a URL selects; nothing where it names one that is not
/// there.
pub open spec fn selection(
    files: Seq<XmlFile>,
    xml_file_name: Seq<char>,
    target: ArchiveTarget,
) -> Option<Seq<XmlFile>> {
    match target.file_path {
        None => Some(plan::without_metadata(files, xml_file_name)),
        Some(path) => {
            let at = plan::name_position(files, path@);
            if at < files.len() {
                Some(seq![files[at]])
            } else {
                None
            }
        },
    }
}

/// The files that a filter keeps.
pub open spec fn kept(files: Seq<XmlFile>, filter: FileFilter) -> Seq<XmlFile> {
    files.filter(|file: XmlFile| filter.keeps(file.name@))
}

fn filter_files(files: Vec<XmlFile>, filter: &FileFilter) -> (r: Vec<XmlFile>)
    ensures
        r@ == kept(files@, *filter),
        r@.len() <= files@.len(),
{
    let mut list: Vec<XmlFile> = Vec::new();
    let ghost all = files@;
    proof {
        reveal(Seq::filter);
    }
    assert(list@ =~= kept(all.take(0), *filter));
    for file in it: files
        invariant
            it.seq() == all,
            list@ == kept(all.take(it.index()), *filter),
            list@.len() <= it.index(),
    {
        proof {
            reveal(Seq::filter);
            assert(all.take(it.index() + 1).drop_last() =~= all.take(it.index()));
        }
        if filter.matches(&file.name) {
            list.push(file);
        }
    }
    assert(all.take(all.len() as int) =~= all);
    list
}

/// Whether an error says that no file is left to download.
pub open spec fn is_nothing_selected(e: IaGetError, target: ArchiveTarget) -> bool {
    e matches IaGetError::NoFilesSelected { identifier } && identifier@ == target.identifier@
}

/// Narrows an archive's files to those of a run and plans them: what the URL
/// selects, then what the filter keeps, then the plan, so that excluded files
/// take no part in collisions either. Gives the plan, how many files the URL
/// selected, and how many of those the filter kept out.
pub fn build_plan(
    files: Vec<XmlFile>,
    xml_file_name: &str,
    base_url: &Link,
    output_dir: &str,
    target: &ArchiveTarget,
    filter: &FileFilter,
    case: PathCase,
) -> (r: Result<(DownloadPlan, usize, usize), IaGetError>)
    ensures
        match selection(files@, xml_file_name@, *target) {
            None => r matches Err(e) && (e matches IaGetError::FileNotFoundInArchive {
                identifier,
                path,
            } && identifier@ == target.identifier@ && Some(path@) == text::maybe(
                target.file_path,
            )),
            Some(selected) => {
                let candidates = kept(selected, *filter);
                if candidates.len() == 0 {
                    r matches Err(e) && is_nothing_selected(e, *target)
                } else {
                    match plan::planned(
                        candidates,
                        base_url.href@,
                        output_dir@,
                        plan::reserved_name(*base_url, *target),
                        case,
                    ) {
                        Err(message) => r matches Err(e) && (e matches IaGetError::UrlFormat(t)
                            && t@ == message),
                        Ok(view) => if view.tasks.len() == 0 {
                            r matches Err(e) && is_nothing_selected(e, *target)
                        } else {
                            r matches Ok((plan, all, out)) && plan::task_views(plan.tasks@)
                                == view.tasks && plan.sanitized_count == view.sanitized
                                && styled::lines(plan.warnings@) == view.warnings && all
                                == selected.len() && out == selected.len() - candidates.len()
                        },
                    }
                }
            },
        },
{
    let ghost wanted = selection(files@, xml_file_name@, *target);
    let selected = match select_files(files, xml_file_name, target) {
        Ok(selected) => selected,
        Err(e) => return Err(e),
    };
    assert(wanted == Some(selected@));
    let selected_total: usize = selected.len();
    let candidates = filter_files(selected, filter);
    if candidates.len() == 0 {
        return Err(IaGetError::NoFilesSelected { identifier: target.identifier.clone() });
    }
    let filtered_out: usize = selected_total - candidates.len();
    match plan_download_tasks(candidates, base_url, output_dir, target, case) {
        Ok(plan) => Ok((plan, selected_total, filtered_out)),
        Err(e) => Err(e),
    }
}

proof fn lemma_kept(files: Seq<XmlFile>, filter: FileFilter)
    ensures
        forall|i: int|
            0 <= i < kept(files, filter).len() ==> filter.keeps(
                (#[trigger] kept(files, filter)[i]).name@,
            ) && files.contains(kept(files, filter)[i]),
    decreases files.len(),
{
    reveal(Seq::filter);
    if files.len() > 0 {
        let front = files.drop_last();
        lemma_kept(front, filter);
        assert forall|i: int| 0 <= i < kept(files, filter).len() implies filter.keeps(
            (#[trigger] kept(files, filter)[i]).name@,
        ) && files.contains(kept(files, filter)[i]) by {
            if i < kept(front, filter).len() {
                assert(kept(files, filter)[i] == kept(front, filter)[i]);
                let at = front.index_of(kept(front, filter)[i]);
                assert(files[at] == kept(files, filter)[i]);
            } else {
                assert(files[files.len() - 1] == kept(files, filter)[i]);
            }
        }
    }
}

/// What a filter excludes is not planned: every planned task stands for a
/// listed file that passes it.
pub proof fn excluded_files_are_not_planned(
    files: Seq<XmlFile>,
    filter: FileFilter,
    base: Seq<char>,
    output_dir: Seq<char>,
    reserved: Option<Seq<char>>,
    case: PathCase,
)
    requires
        plan::planned(kept(files, filter), base, output_dir, reserved, case) is Ok,
    ensures
        ({
            let view = plan::planned(kept(files, filter), base, output_dir, reserved, case)->Ok_0;
            &&& view.sources.len() == view.tasks.len()
            &&& forall|i: int|
                0 <= i < view.sources.len() ==> 0 <= #[trigger] view.sources[i] < kept(
                    files,
                    filter,
                ).len() && filter.keeps(kept(files, filter)[view.sources[i]].name@)
                    && files.contains(kept(files, filter)[view.sources[i]])
        }),
{
    lemma_kept(files, filter);
    plan::plan_is_faithful(kept(files, filter), base, output_dir, reserved, case);
}

/// The number of the metadata document, which a whole-item run saves first.
pub const XML_FILE_NUMBER: usize = 1;

/// How many files a run has: a whole-item run counts the metadata document
/// in.
pub open spec fn total_files(tasks: int, whole_item: bool) -> int {
    tasks + if whole_item {
        1int
    } else {
        0
    }
}

/// The number of a run's first download.
pub open spec fn first_number(whole_item: bool) -> int {
    if whole_item {
        XML_FILE_NUMBER + 1
    } else {
        1
    }
}

/// How many files a run has, and the number of its first download.
pub fn file_numbers(tasks: usize, whole_item: bool) -> (r: (usize, usize))
    requires
        tasks < usize::MAX,
    ensures
        r.0 == total_files(tasks as int, whole_item),
        r.1 == first_number(whole_item),
{
    if whole_item {
        (tasks + 1, XML_FILE_NUMBER + 1)
    } else {
        (tasks, 1)
    }
}

/// A run counts its files to the end: its last download bears the number of
/// files that the run has.
pub proof fn numbers_run_to_the_total(tasks: int, whole_item: bool)
    requires
        tasks >= 1,
    ensures
        first_number(whole_item) + tasks - 1 == total_files(tasks, whole_item),
{
}

// ---------------------------------------------------------------------------
// What a run announces
// ---------------------------------------------------------------------------

/// The ending of a counted noun.
pub open spec fn plural(count: nat) -> Seq<char> {
    if count == 1 {
        ""@
    } else {
        "s"@
    }
}

fn plural_ending(count: usize) -> (r: &'static str)
    ensures
        r@ == plural(count as nat),
{
    if count == 1 {
        ""
    } else {
        "s"
    }
}

/// The line that a failed step ends with.
pub open spec fn failure_shown(message: Seq<char>) -> Seq<(Seq<char>, Style)> {
    seq![("✘"@, Style::RedBold), (" "@, Style::Plain), (message, Style::Plain)]
}

/// The line that a failed step ends with, unless the steps have ended with a
/// line already.
pub fn report_spinner_error(finished: bool, error: &IaGetError) -> (r: Option<Line>)
    ensures
        r is None <==> finished,
        r matches Some(line) ==> line@ == failure_shown(error.text()),
{
    if finished {
        return None;
    }
    let mut line = Line::new();
    line.push("✘", Style::RedBold);
    line.push(" ", Style::Plain);
    line.push(&error.to_text(), Style::Plain);
    assert(line@ =~= failure_shown(error.text()));
    Some(line)
}

/// The line above a file list.
pub open spec fn list_heading(files: Seq<XmlFile>) -> Seq<(Seq<char>, Style)> {
    seq![
        ("✔"@, Style::GreenBold),
        (" Archive has "@, Style::Plain),
        (archive_metadata::summary_words(files), Style::Bold),
    ]
}

/// What the note below a file list says of the metadata document.
pub open spec fn metadata_note(xml_file_name: Seq<char>, remaining: nat) -> Seq<char> {
    xml_file_name
        + " is the archive's own metadata (saved locally as file #1): a download fetches the remaining "@
        + text::decimal(remaining) + " file"@ + plural(remaining)
}

/// The note below a file list that names the metadata document.
pub open spec fn list_note(xml_file_name: Seq<char>, files: nat) -> Seq<(Seq<char>, Style)> {
    seq![
        ("ⓘ"@, Style::BlueBold),
        (" "@, Style::Plain),
        ("Note:"@, Style::Blue),
        (" "@, Style::Plain),
        (metadata_note(xml_file_name, (files - 1) as nat), Style::Dimmed),
    ]
}

/// A file list: its heading, its rows, and an empty line and a note where it
/// names the metadata document, which a download does not count.
pub open spec fn list_lines(files: Seq<XmlFile>, xml_file_name: Seq<char>) -> Seq<
    Seq<(Seq<char>, Style)>,
> {
    let rows = Seq::new(
        files.len(),
        |i: int| archive_metadata::listed_row(files[i], xml_file_name),
    );
    let note = if plan::name_position(files, xml_file_name) < files.len() {
        seq![Seq::empty(), list_note(xml_file_name, files.len())]
    } else {
        Seq::empty()
    };
    seq![list_heading(files)] + rows + note
}

fn names_file(files: &Vec<XmlFile>, name: &str) -> (r: bool)
    ensures
        r == (plan::name_position(files@, name@) < files@.len()),
{
    let mut i: usize = 0;
    assert(files@.skip(0) =~= files@);
    while i < files.len()
        invariant
            i <= files.len(),
            plan::name_position(files@, name@) == i + plan::name_position(
                files@.skip(i as int),
                name@,
            ),
        decreases files.len() - i,
    {
        if text::same(&files[i].name, name) {
            return true;
        }
        assert(files@.skip(i as int).skip(1) =~= files@.skip(i + 1));
        i += 1;
    }
    assert(files@.skip(i as int).len() == 0);
    false
}

/// The lines that list the files of an item.
pub fn list_files(files: &XmlFiles, xml_file_name: &str) -> (r: Vec<Line>)
    requires
        archive_metadata::known_size(files.files@) <= u64::MAX,
    ensures
        styled::lines(r@) == list_lines(files.files@, xml_file_name@),
{
    let mut heading = Line::new();
    heading.push("✔", Style::GreenBold);
    heading.push(" Archive has ", Style::Plain);
    heading.push(&list_summary(files), Style::Bold);
    assert(heading@ =~= list_heading(files.files@));
    let mut lines: Vec<Line> = Vec::new();
    lines.push(heading);
    let rows = list_file_rows(files, xml_file_name);
    let ghost listed = styled::lines(rows@);
    let ghost first = styled::lines(lines@);
    let mut rest = rows;
    lines.append(&mut rest);
    assert(styled::lines(lines@) =~= first + listed);
    if names_file(&files.files, xml_file_name) {
        let remaining: usize = files.files.len() - 1;
        let mut message = text::concat(
            xml_file_name,
            " is the archive's own metadata (saved locally as file #1): a download fetches the remaining ",
        );
        text::push_decimal(&mut message, remaining as u64);
        message.append(" file");
        message.append(plural_ending(remaining));
        let mut note = Line::new();
        note.push("ⓘ", Style::BlueBold);
        note.push(" ", Style::Plain);
        note.push("Note:", Style::Blue);
        note.push(" ", Style::Plain);
        note.push(&message, Style::Dimmed);
        assert(note@ =~= list_note(xml_file_name@, files.files@.len()));
        lines.push(Line::new());
        lines.push(note);
    }
    assert(styled::lines(lines@) =~= list_lines(files.files@, xml_file_name@));
    lines
}

/// The line above a check.
pub open spec fn verifying_shown(count: nat, output_dir: Seq<char>) -> Seq<(Seq<char>, Style)> {
    seq![
        ("⚙"@, Style::Blue),
        (" Verifying "@, Style::Plain),
        (text::decimal(count), Style::Bold),
        (" file"@, Style::Plain),
        (plural(count), Style::Plain),
        (" in "@, Style::Plain),
        (probed_dir(output_dir), Style::Bold),
    ]
}

/// The line above a check.
pub fn verifying_line(count: usize, output_dir: &str) -> (r: Line)
    ensures
        r@ == verifying_shown(count as nat, output_dir@),
{
    let mut line = Line::new();
    line.push("⚙", Style::Blue);
    line.push(" Verifying ", Style::Plain);
    line.push(&text::decimal_text(count as u64), Style::Bold);
    line.push(" file", Style::Plain);
    line.push(plural_ending(count), Style::Plain);
    line.push(" in ", Style::Plain);
    line.push(&probe_directory(output_dir), Style::Bold);
    assert(line@ =~= verifying_shown(count as nat, output_dir@));
    line
}

/// The closing line of a check.
pub open spec fn outcome_shown(problems: nat) -> Seq<(Seq<char>, Style)> {
    if problems == 0 {
        seq![
            ("✔"@, Style::GreenBold),
            (" "@, Style::Plain),
            ("Directory matches the archive"@, Style::GreenBold),
        ]
    } else {
        seq![
            ("✘"@, Style::RedBold),
            (" "@, Style::Plain),
            (text::decimal(problems) + " problem(s) found"@, Style::RedBold),
        ]
    }
}

/// What a check comes to: its closing line, and the error of a directory that
/// does not match.
pub fn check_outcome(report: &CheckReport, strict: bool) -> (r: (Line, Result<(), IaGetError>))
    requires
        report@.is_countable(),
    ensures
        r.0@ == outcome_shown(report@.failing(strict)),
        r.1 is Ok <==> report@.failing(strict) == 0,
        r.1 matches Err(e) ==> (e matches IaGetError::CheckFailed { problems } && problems
            == report@.failing(strict)),
{
    let mut line = Line::new();
    if report.is_clean(strict) {
        line.push("✔", Style::GreenBold);
        line.push(" ", Style::Plain);
        line.push("Directory matches the archive", Style::GreenBold);
        assert(line@ =~= outcome_shown(0));
        return (line, Ok(()));
    }
    let problems: usize = report.failing_count(strict);
    let mut message = text::decimal_text(problems as u64);
    message.append(" problem(s) found");
    line.push("✘", Style::RedBold);
    line.push(" ", Style::Plain);
    line.push(&message, Style::RedBold);
    assert(line@ =~= outcome_shown(problems as nat));
    (line, Err(IaGetError::CheckFailed { problems }))
}

/// The block of the saved metadata document: an empty line, its banner as
/// the first file, and its size. It never crossed the network as a file, so
/// no time and no rate stand there.
pub open spec fn saved_metadata_shown(xml_path: Seq<char>, total: usize, size: u64) -> Seq<
    Seq<(Seq<char>, Style)>,
> {
    seq![
        seq![(" "@, Style::Plain)],
        display::filename_shown(xml_path),
        display::count_shown(XML_FILE_NUMBER, total),
        display::downloaded_shown(("╰╼"@, Style::CyanDimmed), size, None),
    ]
}

/// The block of the saved metadata document.
pub fn saved_metadata_lines(xml_path: &str, total: usize, size: u64) -> (r: Vec<Line>)
    ensures
        styled::lines(r@) == saved_metadata_shown(xml_path@, total, size),
{
    let mut blank = Line::new();
    blank.push(" ", Style::Plain);
    assert(blank@ =~= seq![(" "@, Style::Plain)]);
    let mut lines: Vec<Line> = Vec::new();
    lines.push(blank);
    lines.push(filename_line(xml_path));
    lines.push(count_line(XML_FILE_NUMBER, total));
    lines.push(print_downloaded_line(&last_glyph(), size, None));
    assert(styled::lines(lines@) =~= saved_metadata_shown(xml_path@, total, size));
    lines
}

/// The line that a download starts with.
pub open spec fn ready_shown(count: nat) -> Seq<(Seq<char>, Style)> {
    seq![
        ("✔"@, Style::GreenBold),
        (" "@, Style::Plain),
        ("Ready"@, Style::Bold),
        (" to download "@, Style::Plain),
        (text::decimal(count), Style::Bold),
        (" files from archive.org "@, Style::Plain),
        ("★"@, Style::Yellow),
    ]
}

/// The line that a download starts with.
pub fn ready_line(count: usize) -> (r: Line)
    ensures
        r@ == ready_shown(count as nat),
{
    let mut line = Line::new();
    line.push("✔", Style::GreenBold);
    line.push(" ", Style::Plain);
    line.push("Ready", Style::Bold);
    line.push(" to download ", Style::Plain);
    line.push(&text::decimal_text(count as u64), Style::Bold);
    line.push(" files from archive.org ", Style::Plain);
    line.push("★", Style::Yellow);
    assert(line@ =~= ready_shown(count as nat));
    line
}

/// The line for names that were sanitized.
pub open spec fn sanitized_shown(count: nat) -> Seq<(Seq<char>, Style)> {
    seq![
        ("✓"@, Style::GreenBold),
        (" "@, Style::Plain),
        ("Sanitized"@, Style::Bold),
        (" "@, Style::Plain),
        (text::decimal(count), Style::Bold),
        (" file"@, Style::Plain),
        (plural(count), Style::Plain),
        (" for filesystem compatibility"@, Style::Plain),
    ]
}

/// The line for files that the filter kept out.
pub open spec fn filtered_shown(count: nat, total: nat) -> Seq<(Seq<char>, Style)> {
    seq![
        ("ⓘ"@, Style::BlueBold),
        (" "@, Style::Plain),
        ("Filtered out"@, Style::Bold),
        (" "@, Style::Plain),
        (text::decimal(count), Style::Bold),
        (" of "@, Style::Plain),
        (text::decimal(total), Style::Plain),
        (" files by --include/--exclude"@, Style::Plain),
    ]
}

/// What is said of a plan below its warnings: how many names were sanitized,
/// and how many files the filter kept out, each below an empty line, and each
/// where there were any.
pub open spec fn plan_notes(sanitized: nat, filtered_out: nat, selected: nat) -> Seq<
    Seq<(Seq<char>, Style)>,
> {
    let first: Seq<Seq<(Seq<char>, Style)>> = if sanitized > 0 {
        seq![Seq::empty(), sanitized_shown(sanitized)]
    } else {
        Seq::empty()
    };
    let second: Seq<Seq<(Seq<char>, Style)>> = if filtered_out > 0 {
        seq![Seq::empty(), filtered_shown(filtered_out, selected)]
    } else {
        Seq::empty()
    };
    first + second
}

/// What is said of a plan below its warnings.
pub fn plan_note_lines(sanitized: usize, filtered_out: usize, selected: usize) -> (r: Vec<Line>)
    ensures
        styled::lines(r@) == plan_notes(
            sanitized as nat,
            filtered_out as nat,
            selected as nat,
        ),
{
    let mut lines: Vec<Line> = Vec::new();
    if sanitized > 0 {
        let mut line = Line::new();
        line.push("✓", Style::GreenBold);
        line.push(" ", Style::Plain);
        line.push("Sanitized", Style::Bold);
        line.push(" ", Style::Plain);
        line.push(&text::decimal_text(sanitized as u64), Style::Bold);
        line.push(" file", Style::Plain);
        line.push(plural_ending(sanitized), Style::Plain);
        line.push(" for filesystem compatibility", Style::Plain);
        assert(line@ =~= sanitized_shown(sanitized as nat));
        lines.push(Line::new());
        lines.push(line);
    }
    if filtered_out > 0 {
        let mut line = Line::new();
        line.push("ⓘ", Style::BlueBold);
        line.push(" ", Style::Plain);
        line.push("Filtered out", Style::Bold);
        line.push(" ", Style::Plain);
        line.push(&text::decimal_text(filtered_out as u64), Style::Bold);
        line.push(" of ", Style::Plain);
        line.push(&text::decimal_text(selected as u64), Style::Plain);
        line.push(" files by --include/--exclude", Style::Plain);
        assert(line@ =~= filtered_shown(filtered_out as nat, selected as nat));
        lines.push(Line::new());
        lines.push(line);
    }
    assert(styled::lines(lines@) =~= plan_notes(
        sanitized as nat,
        filtered_out as nat,
        selected as nat,
    ));
    lines
}

// ---------------------------------------------------------------------------
// What settings promise
// ---------------------------------------------------------------------------

/// The proxy is the one that was asked for explicitly, else that of the
/// first environment variable, else that of the second, each only where it
/// is more than white space; whatever is set behind it plays no part.
pub proof fn explicit_proxies_win(
    explicit: Option<Seq<char>>,
    first: Option<Seq<char>>,
    second: Option<Seq<char>>,
    proxy: Seq<char>,
)
    requires
        text::trim(proxy, Trim::Space).len() > 0,
        explicit matches Some(e) ==> e == proxy || text::trim(e, Trim::Space).len() == 0,
    ensures
        chosen_proxy(Some(proxy), first, second) == Some(proxy),
        explicit != Some(proxy) ==> chosen_proxy(explicit, Some(proxy), second) == Some(proxy),
        explicit != Some(proxy) && (first matches Some(f) ==> text::trim(f, Trim::Space).len() == 0)
            ==> chosen_proxy(explicit, first, Some(proxy)) == Some(proxy),
        explicit != Some(proxy) && (first matches Some(f) ==> text::trim(f, Trim::Space).len() == 0)
            && (second matches Some(s) ==> text::trim(s, Trim::Space).len() == 0)
            ==> chosen_proxy(explicit, first, second) is None,
{
}

/// A proxy with a scheme is used as it is; one without is an HTTP proxy.
pub proof fn bare_proxies_are_http(host: Seq<char>, before: Seq<char>, behind: Seq<char>)
    ensures
        proxy_url(before + seq![':', '/', '/'] + behind) == before + seq![':', '/', '/'] + behind,
        (forall|i: int| 0 <= i < host.len() ==> #[trigger] host[i] != '/') ==> proxy_url(host)
            == "http://"@ + host,
{
    reveal_strlit("://");
    let mark = "://"@;
    assert(mark =~= seq![':', '/', '/']);
    let url = before + mark + behind;
    let n = before.len() as int;
    assert(url.skip(n).subrange(0, 3) =~= mark);
    assert(mark.is_prefix_of(url.skip(n)));
    assert(text::holds_part(url, mark));
    if (forall|i: int| 0 <= i < host.len() ==> #[trigger] host[i] != '/') && text::holds_part(
        host,
        mark,
    ) {
        let k = choose|k: int| 0 <= k <= host.len() && mark.is_prefix_of(#[trigger] host.skip(k));
        assert(host.skip(k).subrange(0, 3)[1] == mark[1]);
        assert(host[k + 1] == '/');
    }
}

/// The output directory is the argument without the separators at its end;
/// one that is nothing but separators names none. The root of a drive keeps
/// one on Windows, and nowhere else.
pub proof fn directories_lose_trailing_separators(
    dir: Seq<char>,
    separators: Seq<char>,
    windows: bool,
)
    requires
        forall|i: int|
            0 <= i < separators.len() ==> (#[trigger] separators[i] == '/' || separators[i]
                == '\\'),
        dir.len() > 0 ==> dir.last() != '/' && dir.last() != '\\',
    ensures
        dir.len() == 0 ==> named_dir(dir + separators, windows) is None,
        dir.len() > 0 && (!windows || dir.len() != 2 || dir[1] != ':') ==> named_dir(
            dir + separators,
            windows,
        ) == Some(dir),
        windows && dir.len() == 2 && dir[1] == ':' && (0x41 <= dir[0] as u32 <= 0x5a || 0x61
            <= dir[0] as u32 <= 0x7a) ==> named_dir(dir + separators, windows) == Some(
            dir + seq!['\\'],
        ),
{
    reveal_strlit("\\");
    assert("\\"@ =~= seq!['\\']);
    text::lemma_trim_back_run(dir, separators, Trim::Separator);
}

/// The current directory is looked at where no output directory was given.
pub proof fn no_directory_is_the_current_one(dir: Seq<char>)
    ensures
        probed_dir(Seq::empty()) == seq!['.'],
        dir.len() > 0 ==> probed_dir(dir) == dir,
{
    reveal_strlit(".");
    assert("."@ =~= seq!['.']);
}

/// A filter keeps the files that it lets through, each as often as it is
/// listed and in that order, and no others.
pub proof fn filters_keep_what_passes(
    a: Seq<XmlFile>,
    b: Seq<XmlFile>,
    file: XmlFile,
    filter: FileFilter,
)
    ensures
        kept(a + b, filter) == kept(a, filter) + kept(b, filter),
        kept(seq![file], filter) == (if filter.keeps(file.name@) {
            seq![file]
        } else {
            Seq::empty()
        }),
    decreases b.len(),
{
    reveal(Seq::filter);
    assert(seq![file].drop_last() =~= Seq::<XmlFile>::empty());
    assert(kept(Seq::empty(), filter) =~= Seq::empty());
    if filter.keeps(file.name@) {
        assert(kept(seq![file], filter) =~= seq![file]);
    }
    if b.len() == 0 {
        assert(a + b =~= a);
        assert(kept(b, filter) =~= Seq::empty());
    } else {
        assert((a + b).drop_last() =~= a + b.drop_last());
        filters_keep_what_passes(a, b.drop_last(), file, filter);
        assert(kept(a + b, filter) =~= kept(a, filter) + kept(b, filter));
    }
}

/// A URL of a whole item selects every listed file that does not bear the
/// metadata's name; one of a file selects the first that bears its name, and
/// nothing where none does.
pub proof fn urls_select_their_files(
    files: Seq<XmlFile>,
    xml_file_name: Seq<char>,
    target: ArchiveTarget,
)
    ensures
        target.file_path is None ==> (selection(files, xml_file_name, target) matches Some(wanted)
            && wanted.len() + plan::times_listed(files, xml_file_name) == files.len() && forall|
            i: int,
        |
            0 <= i < files.len() && (#[trigger] files[i]).name@ != xml_file_name
                ==> wanted.contains(files[i])),
        target.file_path matches Some(path) ==> match selection(files, xml_file_name, target) {
            Some(wanted) => wanted.len() == 1 && wanted[0].name@ == path@ && files.contains(
                wanted[0],
            ),
            None => forall|i: int| 0 <= i < files.len() ==> (#[trigger] files[i]).name@ != path@,
        },
{
    plan::every_other_file_is_wanted(files, xml_file_name);
    if let Some(path) = target.file_path {
        plan::the_first_of_a_name_is_selected(files, path@);
    }
}

/// A whole-item run counts the metadata document as its first file; any
/// other run counts its downloads alone.
pub proof fn files_are_numbered_from_one(tasks: int, whole_item: bool)
    ensures
        whole_item ==> total_files(tasks, whole_item) == tasks + 1 && first_number(whole_item) == 2,
        !whole_item ==> total_files(tasks, whole_item) == tasks && first_number(whole_item) == 1,
{
}

/// A list shows every file in a row of its own, in order, below its heading;
/// two more lines follow exactly where the metadata document is listed.
pub proof fn lists_show_every_file(files: Seq<XmlFile>, xml_file_name: Seq<char>)
    ensures
        forall|i: int|
            0 <= i < files.len() ==> list_lines(files, xml_file_name)[i + 1]
                == archive_metadata::listed_row(#[trigger] files[i], xml_file_name),
        list_lines(files, xml_file_name).len() == files.len() + 1 + if exists|i: int|
            0 <= i < files.len() && (#[trigger] files[i]).name@ == xml_file_name {
            2int
        } else {
            0
        },
{
    plan::the_first_of_a_name_is_selected(files, xml_file_name);
    if exists|i: int| 0 <= i < files.len() && (#[trigger] files[i]).name@ == xml_file_name {
        let i = choose|i: int|
            0 <= i < files.len() && (#[trigger] files[i]).name@ == xml_file_name;
        plan::listed_file_is_found(files, xml_file_name, i);
    }
}

/// A check closes with its number of problems, and says that the directory
/// matches exactly where there is none.
pub proof fn checks_close_with_their_problems(problems: nat)
    ensures
        problems == 0 <==> outcome_shown(problems).contains(
            ("Directory matches the archive"@, Style::GreenBold),
        ),
        problems > 0 ==> outcome_shown(problems).contains(
            (text::decimal(problems) + " problem(s) found"@, Style::RedBold),
        ),
{
    let line = outcome_shown(problems);
    if problems == 0 {
        assert(line[2] == ("Directory matches the archive"@, Style::GreenBold));
    } else {
        assert(line[2] == (text::decimal(problems) + " problem(s) found"@, Style::RedBold));
        let ending = " problem(s) found"@;
        reveal_strlit(" problem(s) found");
        reveal_strlit("Directory matches the archive");
        reveal_strlit(" ");
        reveal_strlit("✘");
        let text = text::decimal(problems) + ending;
        assert(text.last() == ending.last());
        assert("Directory matches the archive"@.last() == 'e');
        assert(ending.last() == 'd');
        assert("✘"@.len() == 1 && " "@.len() == 1);
    }
}

/// The notes on a plan: one for sanitized names where there are any, then
/// one for files that the filter kept out where there are any.
pub proof fn plans_are_noted(sanitized: nat, filtered_out: nat, selected: nat)
    ensures
        plan_notes(sanitized, filtered_out, selected).len() == (if sanitized > 0 {
            2int
        } else {
            0
        }) + (if filtered_out > 0 {
            2int
        } else {
            0
        }),
        sanitized > 0 ==> plan_notes(sanitized, filtered_out, selected)[1].contains(
            (text::decimal(sanitized), Style::Bold),
        ),
        filtered_out > 0 ==> plan_notes(sanitized, filtered_out, selected).last().contains(
            (text::decimal(filtered_out), Style::Bold),
        ) && plan_notes(sanitized, filtered_out, selected).last().contains(
            (text::decimal(selected), Style::Plain),
        ),
{
    assert(sanitized_shown(sanitized)[4] == (text::decimal(sanitized), Style::Bold));
    assert(filtered_shown(filtered_out, selected)[4] == (text::decimal(filtered_out), Style::Bold));
    assert(filtered_shown(filtered_out, selected)[6] == (text::decimal(selected), Style::Plain));
}

/// The lines of a run name what they are about: the limit in bytes and in
/// words, how many files are ready or verified and where, how much space is
/// needed and how much there is, and what failed.
pub proof fn run_lines_name_their_facts(
    limit: u64,
    count: nat,
    dir: Seq<char>,
    required: nat,
    available: nat,
    message: Seq<char>,
    proxy: Seq<char>,
    path: Seq<char>,
    total: usize,
    size: u64,
)
    requires
        dir.len() > 0,
    ensures
        rate_message(limit) == "rate limit: "@ + text::decimal(limit as nat) + " bytes/s (~"@
            + display::size_words(limit as nat) + "/s)"@,
        ready_shown(count)[4].0 == text::decimal(count),
        verifying_shown(count, dir)[2].0 == text::decimal(count),
        verifying_shown(count, dir)[3].0 == " file"@,
        verifying_shown(count, dir)[4].0 == (if count == 1 {
            ""@
        } else {
            "s"@
        }),
        verifying_shown(count, dir).last().0 == dir,
        space_message(dir, required, available) == "disk space in "@ + dir + ": need ~"@
            + display::size_words(required) + ", "@ + display::size_words(available) + " free"@,
        failure_shown(message).last().0 == message,
        proxy_complaint(proxy, message) == "cannot use proxy "@ + text::quoted(proxy) + ": "@
            + message,
        saved_metadata_shown(path, total, size)[1] == display::filename_shown(path),
        saved_metadata_shown(path, total, size)[2] == display::count_shown(1, total),
        saved_metadata_shown(path, total, size)[3] == display::downloaded_shown(
            ("╰╼"@, Style::CyanDimmed),
            size,
            None,
        ),
{
    no_directory_is_the_current_one(dir);
}

/// Where the metadata document is listed, the note below the list names it
/// and says how many other entries there are.
pub proof fn list_notes_name_the_metadata(files: Seq<XmlFile>, xml_file_name: Seq<char>, i: int)
    requires
        0 <= i < files.len(),
        files[i].name@ == xml_file_name,
    ensures
        ({
            let lines = list_lines(files, xml_file_name);
            let rest = (files.len() - 1) as nat;
            &&& lines[lines.len() - 2].len() == 0
            &&& lines.last().last().0 == xml_file_name
                + " is the archive's own metadata (saved locally as file #1): a download fetches the remaining "@
                + text::decimal(rest) + " file"@ + (if rest == 1 {
                ""@
            } else {
                "s"@
            })
            &&& lines[0].last().0 == archive_metadata::summary_words(files)
        }),
{
    plan::listed_file_is_found(files, xml_file_name, i);
    let lines = list_lines(files, xml_file_name);
    assert(lines[lines.len() - 2] == Seq::<(Seq<char>, Style)>::empty());
    assert(lines.last() == list_note(xml_file_name, files.len()));
    assert(list_note(xml_file_name, files.len()).last() == list_note(
        xml_file_name,
        files.len(),
    )[4]);
    assert(lines[0] == list_heading(files));
}

/// A drive is one letter of ASCII and a colon: any other two characters with
/// a colon are a directory as they stand.
pub proof fn drives_are_letters(c: char, windows: bool)
    requires
        !(0x41 <= c as u32 <= 0x5a || 0x61 <= c as u32 <= 0x7a),
        c != '/' && c != '\\',
    ensures
        named_dir(seq![c, ':'], windows) == Some(seq![c, ':']),
{
    let dir = seq![c, ':'];
    let none = Seq::<char>::empty();
    text::white_space_is_that_of_unicode(':');
    text::lemma_trim_back_run(dir, none, Trim::Separator);
    assert(dir + none =~= dir);
}

/// A value says something exactly where it is there and not white space
/// alone.
pub proof fn blank_values_say_nothing(blank: Seq<char>, front: Seq<char>, word: Seq<char>, back: Seq<char>)
    requires
        forall|i: int| 0 <= i < blank.len() ==> Trim::Space.has(#[trigger] blank[i]),
        forall|i: int| 0 <= i < front.len() ==> Trim::Space.has(#[trigger] front[i]),
        forall|i: int| 0 <= i < back.len() ==> Trim::Space.has(#[trigger] back[i]),
        word.len() > 0 && !Trim::Space.has(word.first()) && !Trim::Space.has(word.last()),
    ensures
        !says_something(None),
        !says_something(Some(blank)),
        says_something(Some(front + word + back)),
{
    let none = Seq::<char>::empty();
    text::trimming_leaves_the_middle(blank, none, none, Trim::Space);
    assert(blank + none + none =~= blank);
    text::trimming_leaves_the_middle(front, word, back, Trim::Space);
}

} // verus!
