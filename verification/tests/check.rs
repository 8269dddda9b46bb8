//! Comparing a directory with the metadata.

use ia_get::check::{
    check_directory, expected_rel, needs_hash, standings, walked_path, CheckReport, HashProbe,
    Listing, PresentFile, Standing, TaskProbe,
};
use ia_get::downloader::verify::FileHasher;
use ia_get::downloader::DownloadTask;
use ia_get::error::IaGetError;
use ia_get::plan::{DownloadPlan, PathCase};
use ia_get::session::check_outcome;

const OUT: &str = "out";

/// A file on the made-up disk.
struct OnDisk {
    rel: &'static str,
    content: Vec<u8>,
    mtime: Option<u64>,
}

fn file(rel: &'static str, bytes: usize) -> OnDisk {
    OnDisk { rel, content: vec![0u8; bytes], mtime: Some(1_700_000_000) }
}

fn holding(rel: &'static str, content: &[u8]) -> OnDisk {
    OnDisk { rel, content: content.to_vec(), mtime: None }
}

fn md5_hex(content: &[u8]) -> String {
    let mut hasher = FileHasher::new();
    hasher.feed(content, true).unwrap();
    hasher.finish()
}

fn task(rel: &str, md5: Option<String>, size: Option<u64>, mtime: Option<u64>) -> DownloadTask {
    DownloadTask {
        url: format!("https://x/{rel}"),
        file_path: format!("{OUT}/{rel}"),
        expected_md5: md5,
        expected_size: size,
        expected_mtime: mtime,
    }
}

fn key(rel: &str, case: PathCase) -> String {
    match case {
        PathCase::Sensitive => rel.to_string(),
        PathCase::Insensitive => rel.to_lowercase(),
    }
}

fn check(
    tasks: Vec<DownloadTask>,
    disk: &[OnDisk],
    dirs: &[&str],
    whole_item: bool,
    verify_md5: bool,
    case: PathCase,
) -> Result<CheckReport, IaGetError> {
    let find = |rel: &str| disk.iter().find(|f| key(f.rel, case) == key(rel, case));
    let mut probes = Vec::new();
    for task in &tasks {
        let rel = expected_rel(&task.file_path, OUT);
        let part_len = find(&format!("{rel}.part")).map(|f| f.content.len() as u64);
        let present = match find(&rel) {
            Some(f) => Ok(PresentFile {
                len: f.content.len() as u64,
                mtime: f.mtime,
                hash: HashProbe::Hash(md5_hex(&f.content)),
            }),
            None => Err("No such file".to_string()),
        };
        probes.push(TaskProbe { part_len, file: present });
    }
    let plan = DownloadPlan { tasks, sanitized_count: 0, warnings: vec![] };
    let listing = Listing {
        files: disk.iter().map(|f| f.rel.to_string()).collect(),
        dirs: dirs.iter().map(|d| d.to_string()).collect(),
    };
    check_directory(&plan, "item_files.xml", whole_item, OUT, verify_md5, &listing, &probes, case)
}

fn single(tasks: Vec<DownloadTask>, disk: &[OnDisk], dirs: &[&str]) -> CheckReport {
    check(tasks, disk, dirs, false, false, PathCase::Sensitive).unwrap()
}

#[test]
fn present_matching_file_is_ok() {
    let report = single(vec![task("a.bin", None, Some(10), None)], &[file("a.bin", 10)], &[]);
    assert_eq!(report.ok, vec!["a.bin".to_string()]);
    assert!(report.is_clean(false));
    assert_eq!(report.failing_count(false), 0);
}

#[test]
fn absent_file_is_missing() {
    let report = single(vec![task("a.bin", None, Some(10), None)], &[], &[]);
    assert_eq!(report.missing, vec!["a.bin".to_string()]);
    assert_eq!(report.failing_count(false), 1);
    assert!(!report.is_clean(false));
}

#[test]
fn part_only_is_incomplete_not_extra() {
    let report = single(vec![task("a.bin", None, Some(100), None)], &[file("a.bin.part", 40)], &[]);
    assert_eq!(report.incomplete, vec![("a.bin".to_string(), 40, 100)]);
    assert!(
        report.extra.is_empty(),
        "an in-progress .part is not an unexpected file: {:?}",
        report.extra
    );
    assert_eq!(report.failing_count(false), 1);
}

#[test]
fn wrong_size_is_a_mismatch() {
    let report = single(vec![task("a.bin", None, Some(10), None)], &[file("a.bin", 20)], &[]);
    assert_eq!(report.size_mismatch, vec![("a.bin".to_string(), 20, 10)]);
    assert_eq!(report.failing_count(false), 1);
}

#[test]
fn extra_file_is_a_warning_not_a_failure() {
    let report = single(
        vec![task("a.bin", None, Some(10), None)],
        &[file("a.bin", 10), holding("stray.txt", b"hi")],
        &[],
    );
    assert_eq!(report.extra, vec!["stray.txt".to_string()]);
    assert!(report.is_clean(false), "extra files do not fail a non-strict check");
    assert!(!report.is_clean(true), "extra files fail a strict check");
    assert_eq!(report.failing_count(true), 1);
}

#[test]
fn stale_part_next_to_complete_file_is_extra() {
    let report = single(
        vec![task("a.bin", None, Some(10), None)],
        &[file("a.bin", 10), file("a.bin.part", 3)],
        &[],
    );
    assert_eq!(report.ok, vec!["a.bin".to_string()]);
    assert_eq!(report.extra, vec!["a.bin.part".to_string()]);
}

#[test]
fn directory_where_a_file_is_expected_is_a_type_mismatch() {
    let report = single(vec![task("a.bin", None, Some(10), None)], &[], &["a.bin"]);
    assert_eq!(report.type_mismatch, vec!["a.bin".to_string()]);
    assert_eq!(report.failing_count(false), 1);
}

#[test]
fn metadata_file_is_not_extra_for_whole_items() {
    let disk = [file("a.bin", 10), holding("item_files.xml", b"<xml/>")];
    let whole = check(
        vec![task("a.bin", None, Some(10), None)],
        &disk,
        &[],
        true,
        false,
        PathCase::Sensitive,
    )
    .unwrap();
    assert!(
        whole.extra.is_empty(),
        "the saved _files.xml is expected for a whole-item download: {:?}",
        whole.extra
    );

    let single = single(vec![task("a.bin", None, Some(10), None)], &disk, &[]);
    assert_eq!(
        single.extra,
        vec!["item_files.xml".to_string()],
        "a single-file run never saves the metadata, so it is unexpected"
    );
}

#[test]
fn differing_case_file_matches_the_metadata() {
    let disk = [file("A.BIN", 10)];
    let tasks = || vec![task("a.bin", None, Some(10), None)];
    let report = single(tasks(), &disk, &[]);
    assert_eq!(report.missing, vec!["a.bin".to_string()]);
    assert_eq!(report.extra, vec!["A.BIN".to_string()]);

    let report = check(tasks(), &disk, &[], false, false, PathCase::Insensitive).unwrap();
    assert_eq!(report.ok, vec!["a.bin".to_string()], "{report:?}");
    assert!(report.missing.is_empty(), "{:?}", report.missing);
    assert!(report.extra.is_empty(), "{:?}", report.extra);
}

#[test]
fn missing_metadata_file_fails_a_whole_item_check() {
    let report = check(
        vec![task("a.bin", None, Some(10), None)],
        &[file("a.bin", 10)],
        &[],
        true,
        false,
        PathCase::Sensitive,
    )
    .unwrap();
    assert_eq!(report.missing, vec!["item_files.xml".to_string()]);
    assert!(!report.is_clean(false), "the metadata file is required");

    let single = single(
        vec![task("b.bin", None, Some(5), None)],
        &[file("a.bin", 10), file("b.bin", 5)],
        &[],
    );
    assert!(single.missing.is_empty(), "{:?}", single.missing);
}

#[test]
fn differing_mtime_is_a_warning_not_a_failure() {
    let report = single(
        vec![task("a.bin", None, Some(10), Some(1_000_000_000))],
        &[file("a.bin", 10)],
        &[],
    );
    assert_eq!(report.date_mismatch, vec!["a.bin".to_string()]);
    assert!(report.is_clean(false));
    assert!(!report.is_clean(true));
}

#[test]
fn md5_is_checked_only_when_requested() {
    let disk = [holding("good.bin", b"hello"), holding("bad.bin", b"world")];
    let make_tasks = || {
        vec![
            task("good.bin", Some(md5_hex(b"hello")), Some(5), None),
            task("bad.bin", Some("00000000000000000000000000000000".to_string()), Some(5), None),
        ]
    };

    let off = single(make_tasks(), &disk, &[]);
    assert_eq!(off.ok, vec!["good.bin".to_string(), "bad.bin".to_string()]);
    assert!(off.md5_mismatch.is_empty());

    let on = check(make_tasks(), &disk, &[], false, true, PathCase::Sensitive).unwrap();
    assert_eq!(on.ok, vec!["good.bin".to_string()]);
    assert_eq!(on.md5_mismatch.len(), 1);
    assert_eq!(on.md5_mismatch[0].0, "bad.bin");
    assert_eq!(on.failing_count(false), 1);
}

#[test]
fn empty_unexpected_directory_is_extra() {
    let report =
        single(vec![task("a.bin", None, Some(10), None)], &[file("a.bin", 10)], &["stray"]);
    assert!(
        report.extra.iter().any(|e| e == "stray"),
        "an empty unexpected directory must be reported: {:?}",
        report.extra
    );
    assert!(!report.is_clean(true));
}

#[test]
fn nested_empty_directories_are_each_reported() {
    let report = single(
        vec![task("a.bin", None, Some(10), None)],
        &[file("a.bin", 10)],
        &["stray", "stray/deeper"],
    );
    assert!(report.extra.iter().any(|e| e == "stray"), "outer empty dir: {:?}", report.extra);
    assert!(
        report.extra.iter().any(|e| e == "stray/deeper"),
        "inner empty dir: {:?}",
        report.extra
    );
}

#[test]
fn ancestor_dir_of_a_missing_file_is_not_extra() {
    let report = single(vec![task("sub/file.bin", None, Some(10), None)], &[], &["sub"]);
    assert_eq!(report.missing, vec!["sub/file.bin".to_string()]);
    assert!(
        report.extra.is_empty(),
        "the expected ancestor directory must not be flagged: {:?}",
        report.extra
    );
}

#[test]
fn dir_holding_an_extra_file_is_not_itself_extra() {
    let report = single(
        vec![task("a.bin", None, Some(10), None)],
        &[file("a.bin", 10), holding("stray/junk.txt", b"x")],
        &["stray"],
    );
    assert_eq!(report.extra, vec!["stray/junk.txt".to_string()]);
}

fn one_probe(file: Result<PresentFile, String>, verify_md5: bool) -> Result<CheckReport, IaGetError> {
    let tasks = vec![task("a.bin", Some("AB".to_string()), Some(5), None)];
    let plan = DownloadPlan { tasks, sanitized_count: 0, warnings: vec![] };
    let listing = Listing { files: vec!["a.bin".to_string()], dirs: vec![] };
    let probes = vec![TaskProbe { part_len: None, file }];
    check_directory(
        &plan,
        "item_files.xml",
        false,
        OUT,
        verify_md5,
        &listing,
        &probes,
        PathCase::Sensitive,
    )
}

fn hashed(hash: HashProbe) -> Result<PresentFile, String> {
    Ok(PresentFile { len: 5, mtime: None, hash })
}

#[test]
fn hashes_compare_without_case_and_failures_are_noted() {
    let report = one_probe(hashed(HashProbe::Hash("ab".to_string())), true).unwrap();
    assert_eq!(report.ok, vec!["a.bin".to_string()]);

    let report = one_probe(hashed(HashProbe::Hash("cd".to_string())), true).unwrap();
    assert_eq!(report.md5_mismatch, vec![(
        "a.bin".to_string(),
        "cd".to_string(),
        "AB".to_string()
    )]);

    assert!(matches!(
        one_probe(hashed(HashProbe::Interrupted), true),
        Err(IaGetError::Interrupted)
    ));
    // A hash that was not asked for is not looked at
    assert!(one_probe(hashed(HashProbe::Interrupted), false).unwrap().is_clean(true));

    // What cannot be read is neither right nor wrong: it is noted
    let report = one_probe(Err("denied".to_string()), false).unwrap();
    assert_eq!(report.notes, vec!["could not read a.bin: denied".to_string()]);
    assert!(report.ok.is_empty() && report.is_clean(true));
    let report = one_probe(hashed(HashProbe::Failed("denied".to_string())), true).unwrap();
    assert_eq!(report.notes, vec!["could not hash a.bin: denied".to_string()]);
    let report = one_probe(hashed(HashProbe::NotUtf8), true).unwrap();
    assert_eq!(
        report.notes,
        vec!["non-UTF-8 path \"a.bin\"; hash not verified".to_string()]
    );
}

#[test]
fn hashes_are_needed_for_right_sizes_alone() {
    let wanted = task("a", Some("AB".to_string()), Some(5), None);
    assert!(needs_hash(&wanted, 5, true));
    assert!(!needs_hash(&wanted, 4, true));
    assert!(!needs_hash(&wanted, 5, false));
    assert!(!needs_hash(&task("a", None, Some(5), None), 5, true));
}

#[test]
fn paths_below_the_directory_are_relative() {
    assert_eq!(expected_rel("out/sub/a", "out/sub"), "a");
    assert_eq!(expected_rel("a/b", ""), "a/b");
    assert_eq!(expected_rel("output/a", "out"), "output/a");
    assert_eq!(walked_path("", "a"), "a");
    assert_eq!(walked_path("a/b", "c"), "a/b/c");
}

#[test]
fn reports_end_with_a_tally() {
    let report = single(
        vec![
            task("a.bin", None, Some(10), None),
            task("b.bin", None, Some(10), None),
            task("c.bin", None, Some(10), None),
        ],
        &[file("a.bin", 10), file("b.bin", 3), holding("stray.txt", b"x")],
        &[],
    );
    let lines: Vec<String> = report.print().iter().map(|line| line.plain()).collect();
    assert!(lines.iter().any(|l| l.contains("a.bin")), "{lines:?}");
    assert!(lines.iter().any(|l| l.contains("b.bin")), "{lines:?}");
    assert!(lines.iter().any(|l| l.contains("c.bin")), "{lines:?}");
    assert!(lines.iter().any(|l| l.contains("stray.txt")), "{lines:?}");

    let (line, result) = check_outcome(&report, false);
    assert_eq!(line.plain(), "✘ 2 problem(s) found");
    assert!(matches!(result, Err(IaGetError::CheckFailed { problems: 2 })));
    let (line, result) = check_outcome(&report, true);
    assert_eq!(line.plain(), "✘ 3 problem(s) found");
    assert!(matches!(result, Err(IaGetError::CheckFailed { problems: 3 })));

    let (line, result) = check_outcome(&CheckReport::new(), true);
    assert_eq!(line.plain(), "✔ Directory matches the archive");
    assert!(result.is_ok());
}

#[test]
fn standings_tell_what_is_in_place() {
    let tasks = ["d", "A.bin", "b.bin", "c.bin"].iter().map(|rel| task(rel, None, None, None));
    let plan = DownloadPlan { tasks: tasks.collect(), sanitized_count: 0, warnings: vec![] };
    let listing = Listing {
        files: vec!["a.bin".to_string(), "b.bin.part".to_string()],
        dirs: vec!["d".to_string()],
    };
    let mut expected =
        vec![Standing::Directory, Standing::Absent, Standing::Partial, Standing::Absent];
    assert_eq!(standings(&plan, &listing, OUT, PathCase::Sensitive), expected);
    expected[1] = Standing::Present;
    assert_eq!(standings(&plan, &listing, OUT, PathCase::Insensitive), expected);
}

#[test]
fn reports_start_without_findings() {
    let report = CheckReport::default();
    assert!(report.is_clean(true));
    assert!(report.ok.is_empty() && report.notes.is_empty());
    assert!(report.date_mismatch.is_empty() && report.extra.is_empty());
    assert_eq!(report.failing_count(true), 0);
}

#[test]
fn a_check_is_clean_where_all_is_in_order() {
    let tasks = || {
        vec![
            task("a.bin", Some(md5_hex(b"hello")), Some(5), None),
            task("d/b.bin", None, None, Some(1_700_000_000)),
        ]
    };
    let clean = |disk: &[OnDisk], dirs: &[&str], strict: bool| {
        let report = check(tasks(), disk, dirs, true, true, PathCase::Sensitive).unwrap();
        report.is_clean(strict)
    };
    let whole = || vec![holding("a.bin", b"hello"), file("d/b.bin", 3), file("item_files.xml", 1)];
    assert!(clean(&whole(), &["d"], true));
    // Without the metadata document, or with a wrong hash, it is not
    assert!(!clean(&whole()[..2], &["d"], false));
    let wrong = [holding("a.bin", b"HELLO"), file("d/b.bin", 3), file("item_files.xml", 1)];
    assert!(!clean(&wrong, &["d"], false));
    // A leftover, an extra file and an extra directory fail a strict check
    for rel in ["a.bin.part", "x"] {
        let mut disk = whole();
        disk.push(file(rel, 1));
        assert!(clean(&disk, &["d"], false), "{rel}");
        assert!(!clean(&disk, &["d"], true), "{rel}");
    }
    assert!(clean(&whole(), &["d", "e"], false));
    assert!(!clean(&whole(), &["d", "e"], true));
}
