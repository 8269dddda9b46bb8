//! A run's settings, its plan, and what it announces.

use ia_get::archive_metadata::{get_xml_url, parse_archive_url, XmlFile, XmlFiles};
use ia_get::downloader::rate::rate_number;
use ia_get::downloader::DownloadTask;
use ia_get::error::IaGetError;
use ia_get::file_filter::FileFilter;
use ia_get::plan::{DownloadPlan, PathCase, TaskDisk};
use ia_get::run::{mode_of, next_phase, Mode, Phase};
use ia_get::session::{
    build_plan, check_directory_exists, check_disk_space, choose_proxy, disk_space_message,
    file_numbers, list_files, normalize_output_dir, parse_rate_limit, plan_note_lines,
    probe_directory, rate_limit_message, ready_line, report_spinner_error, resolve_proxy,
    saved_metadata_lines, settle_proxy, verifying_line,
};
use ia_get::verbose::{enabled, log, set_enabled, Verbosity};

fn xml_file(name: &str, size: Option<u64>) -> XmlFile {
    XmlFile { name: name.to_string(), size, ..Default::default() }
}

#[test]
fn normalize_output_dir_trims_trailing_separators() {
    let unix = |arg: Option<&str>| normalize_output_dir(arg, false).unwrap();
    assert_eq!(unix(None), "");
    assert_eq!(unix(Some("out")), "out");
    assert_eq!(unix(Some("out/")), "out");
    assert_eq!(unix(Some("out/sub\\")), "out/sub");
    assert_eq!(unix(Some("out/sub/")), "out/sub");
    assert_eq!(unix(Some("/out/")), "/out");
    assert_eq!(unix(Some("C:\\")), "C:");
    let windows = |arg: &str| normalize_output_dir(Some(arg), true).unwrap();
    assert_eq!(windows("C:\\"), "C:\\");
    assert_eq!(windows("c://"), "c:\\");
    assert_eq!(windows("1:/"), "1:");
    assert_eq!(windows("é:/"), "é:");
}

#[test]
fn normalize_output_dir_rejects_paths_that_name_no_directory() {
    for arg in ["", "/", "\\", "///"] {
        assert!(
            matches!(
                normalize_output_dir(Some(arg), false),
                Err(IaGetError::InvalidOutputDir(text)) if text == arg
            ),
            "{arg:?} must be an InvalidOutputDir error"
        );
    }
}

#[test]
fn resolve_proxy_uses_the_explicit_value() {
    assert!(resolve_proxy(Some("http://127.0.0.1:3128"), None, None).unwrap().is_some());
    assert!(resolve_proxy(Some("127.0.0.1:3128"), None, None).unwrap().is_some());
    assert!(matches!(
        resolve_proxy(Some("http://"), None, None).unwrap_err(),
        IaGetError::InvalidProxy(_)
    ));
}

#[test]
fn resolve_proxy_falls_back_to_the_environment() {
    assert_eq!(resolve_proxy(None, None, None).unwrap(), None);
    assert_eq!(resolve_proxy(Some("  "), Some(" "), None).unwrap(), None);
    assert_eq!(
        resolve_proxy(None, Some("proxy:1"), Some("other:2")).unwrap().as_deref(),
        Some("http://proxy:1")
    );
    assert_eq!(
        resolve_proxy(Some(""), Some("  "), Some("https://other:2")).unwrap().as_deref(),
        Some("https://other:2")
    );
    assert_eq!(choose_proxy(Some("a"), Some("b"), Some("c")), Some("a"));
    let text = resolve_proxy(Some("http://"), Some("ok:1"), None).unwrap_err().to_text();
    assert!(text.starts_with("Invalid proxy: cannot use proxy \"http://\": "), "{text}");
    assert_eq!(settle_proxy("host:1", None).unwrap(), "http://host:1");
    assert_eq!(
        settle_proxy("x", Some("no".to_string())).unwrap_err().to_text(),
        "Invalid proxy: cannot use proxy \"x\": no"
    );
}

fn limit(input: Option<&str>) -> Result<Option<u64>, IaGetError> {
    let number = input
        .and_then(rate_number)
        .and_then(|text| text.parse::<f64>().ok())
        .map(|value| value.to_bits());
    parse_rate_limit(input, number)
}

#[test]
fn parse_rate_limit_maps_the_flag_to_bytes() {
    assert_eq!(limit(None).unwrap(), None);
    assert_eq!(limit(Some("1M")).unwrap(), Some(1024 * 1024));
    assert_eq!(limit(Some("0")).unwrap(), Some(0));
    assert!(limit(Some("bogus")).is_err());
}

#[test]
fn limits_are_logged_where_they_limit() {
    assert_eq!(rate_limit_message(None), None);
    assert_eq!(rate_limit_message(Some(0)), None);
    assert_eq!(
        rate_limit_message(Some(2048)).as_deref(),
        Some("rate limit: 2048 bytes/s (~2.00KB/s)")
    );
    assert_eq!(
        disk_space_message("", 2048, 10),
        "disk space in .: need ~2.00KB, 10B free"
    );
}

fn task(size: Option<u64>) -> DownloadTask {
    DownloadTask {
        url: "https://archive.org/download/item/file.bin".into(),
        file_path: "ia-get-disk-space-never-created.bin".into(),
        expected_md5: None,
        expected_size: size,
        expected_mtime: None,
    }
}

fn fresh() -> TaskDisk {
    TaskDisk { final_file: None, part_len: None }
}

#[test]
fn check_disk_space_skips_when_nothing_is_needed() {
    assert!(check_disk_space("", &vec![task(None)], &vec![fresh()], Some(0)).is_ok());
}

#[test]
fn check_disk_space_compares_what_is_needed() {
    let tasks = vec![task(Some(2048))];
    let disk = vec![fresh()];
    assert!(check_disk_space("out", &tasks, &disk, Some(2048)).is_ok());
    assert!(check_disk_space("out", &tasks, &disk, None).is_ok(), "unknown space never refuses");
    match check_disk_space("out", &tasks, &disk, Some(2047)).unwrap_err() {
        IaGetError::InsufficientDiskSpace { required, available, path } => {
            assert_eq!(required, "2.00KB");
            assert_eq!(available, "2.00KB");
            assert_eq!(path, "out");
        }
        other => panic!("{other:?}"),
    }
    match check_disk_space("", &tasks, &disk, Some(1)).unwrap_err() {
        IaGetError::InsufficientDiskSpace { available, path, .. } => {
            assert_eq!((available.as_str(), path.as_str()), ("1B", "."));
        }
        other => panic!("{other:?}"),
    }
}

#[test]
fn run_check_missing_directory_is_a_clear_error() {
    let err = check_directory_exists("root/absent", false).unwrap_err();
    assert!(
        matches!(&err, IaGetError::CheckDirectoryNotFound(path) if path == "root/absent"),
        "got: {err:?}"
    );
    assert!(check_directory_exists("", true).is_ok());
    assert_eq!(probe_directory(""), ".");
    assert_eq!(probe_directory("a/b"), "a/b");
}

fn planned(
    url: &str,
    files: Vec<XmlFile>,
    wanted: &[&str],
    unwanted: &[&str],
) -> Result<(DownloadPlan, usize, usize), IaGetError> {
    let target = parse_archive_url(url).unwrap();
    let base = get_xml_url(&target.identifier).unwrap();
    let list = |patterns: &[&str]| patterns.iter().map(|p| p.to_string()).collect::<Vec<_>>();
    let filter = FileFilter::new(list(wanted), list(unwanted));
    build_plan(files, "item1_files.xml", &base, "out", &target, &filter, PathCase::Sensitive)
}

fn listed() -> Vec<XmlFile> {
    vec![
        xml_file("item1_files.xml", Some(9)),
        xml_file("a.pdf", Some(1)),
        xml_file("b.jpg", Some(2)),
        xml_file("draft/c.pdf", Some(3)),
    ]
}

#[test]
fn plans_hold_what_the_url_and_the_filter_leave() {
    let (plan, selected, out) =
        planned("https://archive.org/details/item1", listed(), &["*.pdf"], &["draft/*"]).unwrap();
    assert_eq!(plan.tasks.len(), 1);
    assert_eq!(plan.tasks[0].file_path, "out/a.pdf");
    assert_eq!(plan.tasks[0].url, "https://archive.org/download/item1/a.pdf");
    assert_eq!((selected, out), (3, 2));

    let (plan, selected, out) =
        planned("https://archive.org/download/item1/b.jpg", listed(), &[], &[]).unwrap();
    assert_eq!(plan.tasks.len(), 1);
    assert_eq!((selected, out), (1, 0));

    // An excluded file takes no part in collisions
    let files = vec![xml_file("x:1", Some(1)), xml_file("x_1", Some(2))];
    let (plan, _, _) = planned("https://archive.org/details/item1", files, &[], &["x:1"]).unwrap();
    assert_eq!(plan.tasks.len(), 1);
    assert_eq!(plan.tasks[0].expected_size, Some(2));
    assert!(plan.warnings.is_empty());
}

#[test]
fn plans_without_files_are_errors() {
    let url = "https://archive.org/details/item1";
    assert!(matches!(
        planned(url, listed(), &["*.zip"], &[]),
        Err(IaGetError::NoFilesSelected { identifier }) if identifier == "item1"
    ));
    assert!(matches!(
        planned(url, vec![], &[], &[]),
        Err(IaGetError::NoFilesSelected { .. })
    ));
    assert!(matches!(
        planned("https://archive.org/download/item1/none", listed(), &[], &[]),
        Err(IaGetError::FileNotFoundInArchive { path, .. }) if path == "none"
    ));
}

#[test]
fn files_are_numbered_behind_the_metadata() {
    assert_eq!(file_numbers(3, true), (4, 2));
    assert_eq!(file_numbers(1, false), (1, 1));
}

#[test]
fn announcements_read_as_shown() {
    assert_eq!(ready_line(3).plain(), "✔ Ready to download 3 files from archive.org ★");
    assert_eq!(verifying_line(1, "").plain(), "⚙ Verifying 1 file in .");
    assert_eq!(verifying_line(2, "out").plain(), "⚙ Verifying 2 files in out");
    let shown = |lines: Vec<ia_get::styled::Line>| {
        lines.iter().map(|line| line.plain()).collect::<Vec<_>>()
    };
    assert!(plan_note_lines(0, 0, 5).is_empty());
    assert_eq!(
        shown(plan_note_lines(1, 2, 5)),
        vec![
            "",
            "✓ Sanitized 1 file for filesystem compatibility",
            "",
            "ⓘ Filtered out 2 of 5 files by --include/--exclude",
        ]
    );
    assert_eq!(
        shown(saved_metadata_lines("out/item1_files.xml", 3, 23)),
        vec![
            " ",
            "▣  Filename     out/item1_files.xml",
            "├╼ Count        # 1 of 3",
            "╰╼ Downloaded   ↓ 23B",
        ]
    );
    let error = IaGetError::Interrupted;
    assert_eq!(report_spinner_error(false, &error).unwrap().plain(), "✘ Interrupted by user");
    assert!(report_spinner_error(true, &error).is_none());

    let files = XmlFiles { files: listed() };
    assert_eq!(
        shown(list_files(&files, "item1_files.xml")),
        vec![
            "✔ Archive has 4 files, 15B total",
            "       9B item1_files.xml (metadata)",
            "       1B a.pdf",
            "       2B b.jpg",
            "       3B draft/c.pdf",
            "",
            "ⓘ Note: item1_files.xml is the archive's own metadata (saved locally as file #1): a download fetches the remaining 3 files",
        ]
    );
    let lone = XmlFiles { files: vec![xml_file("a", None)] };
    assert_eq!(
        shown(list_files(&lone, "item1_files.xml")),
        vec!["✔ Archive has 1 file, 0B total known size, 1 unknown size", "  unknown a"]
    );
}

fn phases(mode: Mode, whole_item: bool) -> Vec<Phase> {
    let mut list = vec![Phase::Settings];
    while *list.last().unwrap() != Phase::Ended {
        list.push(next_phase(*list.last().unwrap(), true, mode, whole_item));
    }
    list
}

#[test]
fn runs_go_through_their_phases() {
    assert_eq!(mode_of(true, true), Mode::List);
    assert_eq!(mode_of(false, true), Mode::Check);
    assert_eq!(mode_of(false, false), Mode::Download);
    let start = [Phase::Settings, Phase::Client, Phase::Target, Phase::Metadata];
    let whole = |rest: &[Phase]| [&start[..], rest].concat();
    assert_eq!(phases(Mode::List, true), whole(&[Phase::List, Phase::Ended]));
    assert_eq!(
        phases(Mode::Check, false),
        whole(&[Phase::CheckedDirectory, Phase::CheckPlan, Phase::Check, Phase::Ended])
    );
    assert_eq!(
        phases(Mode::Download, true),
        whole(&[
            Phase::OutputDirectory,
            Phase::Plan,
            Phase::Space,
            Phase::SaveMetadata,
            Phase::Download,
            Phase::Ended,
        ])
    );
    assert_eq!(
        phases(Mode::Download, false),
        whole(&[
            Phase::OutputDirectory,
            Phase::Plan,
            Phase::Space,
            Phase::Download,
            Phase::Ended,
        ])
    );
    assert_eq!(next_phase(Phase::Plan, false, Mode::Download, true), Phase::Ended);
}

#[test]
fn diagnostics_are_opt_in() {
    let mut verbosity = Verbosity::new();
    assert!(!enabled(&verbosity));
    assert_eq!(log(&verbosity, "x"), None);
    set_enabled(&mut verbosity, true);
    assert!(enabled(&verbosity));
    assert_eq!(log(&verbosity, "GET x").as_deref(), Some("[ia-get] GET x"));
    set_enabled(&mut verbosity, false);
    assert!(!enabled(&verbosity));
}
