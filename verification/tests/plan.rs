//! From the metadata to the downloads.

use ia_get::archive_metadata::{ArchiveTarget, XmlFile};
use ia_get::downloader::DownloadTask;
use ia_get::error::IaGetError;
use ia_get::link::Link;
use ia_get::plan::{
    files_to_download, join_output_dir, local_path_key, plan_download_tasks, remaining_bytes_for,
    required_download_space, select_files, total_remaining, Allocation, DownloadPlan, FileFacts,
    PathCase, TaskDisk,
};

fn xml_file(name: &str, size: Option<u64>) -> XmlFile {
    XmlFile { name: name.to_string(), size, ..Default::default() }
}

fn whole_item() -> ArchiveTarget {
    ArchiveTarget { identifier: "item1".to_string(), file_path: None }
}

fn single_file(path: &str) -> ArchiveTarget {
    ArchiveTarget { identifier: "item1".to_string(), file_path: Some(path.to_string()) }
}

fn base() -> Link {
    Link::parse("https://archive.org/download/item1/item1_files.xml").unwrap()
}

fn plan_for(files: Vec<XmlFile>, case: PathCase) -> DownloadPlan {
    plan_download_tasks(files, &base(), "", &whole_item(), case).expect("plan must build")
}

fn task(size: Option<u64>, md5: Option<&str>) -> DownloadTask {
    DownloadTask {
        url: "https://archive.org/download/item/file.bin".to_string(),
        file_path: "file.bin".to_string(),
        expected_md5: md5.map(|m| m.to_string()),
        expected_size: size,
        expected_mtime: None,
    }
}

fn nothing() -> TaskDisk {
    TaskDisk { final_file: None, part_len: None }
}

fn complete(len: u64, links: u64, blocks: u64) -> TaskDisk {
    TaskDisk {
        final_file: Some(FileFacts { len, allocation: Some(Allocation { links, blocks }) }),
        part_len: None,
    }
}

#[test]
fn files_to_download_excludes_xml_self_reference() {
    let files = vec![xml_file("item1_files.xml", Some(123)), xml_file("scan.jpg", Some(456))];
    let result = files_to_download(files, "item1_files.xml");
    assert_eq!(result.len(), 1);
    assert_eq!(result[0].name, "scan.jpg");
}

#[test]
fn files_to_download_keeps_all_when_no_self_reference() {
    let files = vec![xml_file("scan.jpg", Some(456)), xml_file("notes.txt", None)];
    let result = files_to_download(files, "item1_files.xml");
    assert_eq!(result.len(), 2);
}

#[test]
fn plan_download_tasks_skips_entries_with_empty_names() {
    let files = vec![xml_file("", Some(10)), xml_file("//", None), xml_file("ok.bin", Some(5))];
    let plan = plan_for(files, PathCase::Sensitive);

    assert_eq!(plan.sanitized_count, 0);
    assert_eq!(
        plan.tasks.len(),
        1,
        "empty-name entries must be skipped, not joined to the base URL"
    );
    assert_eq!(plan.tasks[0].file_path, "ok.bin");
    assert_eq!(plan.tasks[0].url, "https://archive.org/download/item1/ok.bin");
    assert_eq!(plan.warnings.len(), 2, "each skipped entry must leave a warning line");
}

#[test]
fn plan_download_tasks_rejects_a_plan_where_every_entry_skips() {
    let files = vec![xml_file("", Some(10)), xml_file("//", None)];
    let err = plan_download_tasks(files, &base(), "", &whole_item(), PathCase::Sensitive)
        .expect_err("an all-skipped plan must fail the run");
    assert!(matches!(err, IaGetError::NoFilesSelected { .. }), "got: {err:?}");
}

#[test]
fn plan_download_tasks_skips_sanitized_name_collisions() {
    let files = vec![xml_file("file:1.mp4", Some(1)), xml_file("file_1.mp4", Some(2))];
    let plan = plan_for(files, PathCase::Sensitive);

    assert_eq!(plan.sanitized_count, 1, "only the colon name is sanitized");
    assert_eq!(plan.tasks.len(), 1, "the colliding entry must be skipped");
    assert_eq!(plan.tasks[0].url, "https://archive.org/download/item1/file%3A1.mp4");
    assert_eq!(plan.tasks[0].file_path, "file_1.mp4");
}

#[test]
fn plan_download_tasks_file_and_directory_name_clash() {
    let plan = plan_for(
        vec![xml_file("notes", Some(1)), xml_file("notes/file.txt", Some(2))],
        PathCase::Sensitive,
    );
    assert_eq!(plan.tasks.len(), 1, "the entry under the planned file must be skipped");
    assert_eq!(plan.tasks[0].file_path, "notes");
    assert!(
        plan.warnings.iter().any(|line| line.plain().contains("collides")),
        "the clash must leave a warning line: {:?}",
        plan.warnings
    );

    let plan = plan_for(
        vec![xml_file("notes/file.txt", Some(1)), xml_file("notes", Some(2))],
        PathCase::Sensitive,
    );
    assert_eq!(plan.tasks.len(), 1, "the entry at the planned directory must be skipped");
    assert_eq!(plan.tasks[0].file_path, "notes/file.txt");
}

#[test]
fn plan_download_tasks_shared_directory_is_not_a_clash() {
    let plan = plan_for(
        vec![xml_file("a/b.txt", Some(1)), xml_file("a/c.txt", Some(2))],
        PathCase::Sensitive,
    );
    assert_eq!(plan.tasks.len(), 2, "sibling files must both be planned");
    assert!(plan.warnings.is_empty(), "{:?}", plan.warnings);
}

#[test]
fn plan_download_tasks_case_collision_follows_filesystem() {
    let files = || vec![xml_file("Report.PDF", Some(1)), xml_file("report.pdf", Some(2))];
    let plan = plan_for(files(), PathCase::Sensitive);
    assert_eq!(plan.tasks.len(), 2, "differing case must stay two files on Linux");

    let plan = plan_for(files(), PathCase::Insensitive);
    assert_eq!(plan.tasks.len(), 1, "the case-colliding entry must be skipped");
    assert_eq!(plan.tasks[0].file_path, "Report.PDF");
}

#[test]
fn plan_download_tasks_protects_saved_xml_name() {
    let files = || vec![xml_file("Item1_Files.XML", Some(1)), xml_file("scan.jpg", Some(2))];
    let plan = plan_for(files(), PathCase::Sensitive);
    assert_eq!(
        plan.tasks.len(),
        2,
        "differing case stays distinct on case-sensitive filesystems"
    );

    let plan = plan_for(files(), PathCase::Insensitive);
    assert_eq!(plan.tasks.len(), 1, "the xml-name-colliding entry must be skipped");
    assert_eq!(plan.tasks[0].file_path, "scan.jpg");
}

#[test]
fn local_path_key_normalises_case_per_platform() {
    assert_eq!(local_path_key("A/b.pdf", PathCase::Sensitive), "A/b.pdf");
    assert_eq!(local_path_key("A/b.PDF", PathCase::Insensitive), "a/b.pdf");
    assert_eq!(local_path_key("ÄΣ", PathCase::Insensitive), "äς");
}

#[test]
fn select_files_keeps_all_but_the_xml_entry_for_whole_items() {
    let files = vec![
        xml_file("item1_files.xml", Some(1)),
        xml_file("scan.jpg", Some(2)),
        xml_file("notes.txt", Some(3)),
    ];
    let selected =
        select_files(files, "item1_files.xml", &whole_item()).expect("selection must work");
    assert_eq!(
        selected.iter().map(|file| &file.name).collect::<Vec<_>>(),
        vec!["scan.jpg", "notes.txt"]
    );
}

#[test]
fn select_files_picks_the_named_entry_for_single_file_urls() {
    let files = vec![xml_file("item1_files.xml", Some(1)), xml_file("scan.jpg", Some(2))];
    let selected = select_files(files, "item1_files.xml", &single_file("item1_files.xml"))
        .expect("the named file must be found");
    assert_eq!(selected.len(), 1);
    assert_eq!(selected[0].name, "item1_files.xml");
}

#[test]
fn select_files_missing_name_is_an_error() {
    let err = select_files(
        vec![xml_file("scan.jpg", Some(2))],
        "item1_files.xml",
        &single_file("nope.bin"),
    )
    .expect_err("an unknown file must not yield an empty plan");
    assert!(matches!(err, IaGetError::FileNotFoundInArchive { .. }), "got: {err:?}");
}

#[test]
fn plan_download_tasks_prefixes_the_output_dir() {
    let files = vec![xml_file("a/b.txt", Some(1)), xml_file("c.txt", Some(2))];
    let plan =
        plan_download_tasks(files, &base(), "out/item", &whole_item(), PathCase::Sensitive)
            .expect("plan must build");

    assert_eq!(plan.tasks[0].file_path, "out/item/a/b.txt");
    assert_eq!(plan.tasks[1].file_path, "out/item/c.txt");
    assert_eq!(plan.tasks[0].url, "https://archive.org/download/item1/a/b.txt");
}

#[test]
fn plan_download_tasks_single_file_run_does_not_reserve_the_xml_name() {
    let plan = plan_download_tasks(
        vec![xml_file("item1_files.xml", Some(3))],
        &base(),
        "",
        &single_file("item1_files.xml"),
        PathCase::Sensitive,
    )
    .expect("plan must build");

    assert_eq!(plan.tasks.len(), 1);
    assert_eq!(plan.tasks[0].file_path, "item1_files.xml");
    assert!(plan.warnings.is_empty(), "{:?}", plan.warnings);
}

#[test]
fn join_output_dir_keeps_the_path_bare_without_a_directory() {
    assert_eq!(join_output_dir("", "a/b.txt"), "a/b.txt");
    assert_eq!(join_output_dir("out", "a/b.txt"), "out/a/b.txt");
    assert_eq!(join_output_dir("out/sub", "c.txt"), "out/sub/c.txt");
}

#[test]
fn required_download_space_counts_only_unknown_files() {
    assert_eq!(
        required_download_space(&vec![task(None, None)], &vec![nothing()]),
        0,
        "files without a reported size contribute nothing"
    );
}

#[test]
fn required_download_space_counts_a_fresh_file_in_full() {
    assert_eq!(required_download_space(&vec![task(Some(1000), None)], &vec![nothing()]), 1000);
}

#[test]
fn required_download_space_ignores_a_complete_final_file() {
    assert_eq!(
        required_download_space(&vec![task(Some(1000), None)], &vec![complete(1000, 1, 8)]),
        0,
        "a final file already at its expected size needs no space"
    );
}

#[test]
fn required_download_space_ignores_a_normal_size_matched_file_with_md5() {
    let done = task(Some(1000), Some("0123456789abcdef0123456789abcdef"));
    assert_eq!(
        required_download_space(&vec![done], &vec![complete(1000, 1, 8)]),
        0,
        "a normal size-matched file needs no net new space, MD5 or not"
    );
}

#[test]
fn required_download_space_counts_a_hardlinked_size_matched_file_in_full() {
    let done = task(Some(1000), Some("0123456789abcdef0123456789abcdef"));
    assert_eq!(
        required_download_space(&vec![done], &vec![complete(1000, 2, 8)]),
        1000,
        "removing a hard link frees nothing, so the full size is still needed"
    );
}

#[test]
fn plan_download_tasks_skips_dot_segment_names() {
    let files = vec![
        xml_file("../outside.mp4", Some(1)),
        xml_file("a/./b.mp4", Some(2)),
        xml_file("ok.bin", Some(3)),
    ];
    let plan = plan_for(files, PathCase::Sensitive);

    assert_eq!(
        plan.tasks.len(),
        1,
        "dot-segment entries must be skipped, not re-encoded: {:?}",
        plan.tasks
    );
    assert_eq!(plan.tasks[0].file_path, "ok.bin");
    assert!(
        plan.warnings.iter().any(|line| line.plain().contains("dot-segment")),
        "each skipped entry must leave a warning: {:?}",
        plan.warnings
    );
}

#[test]
fn required_download_space_counts_the_part_remainder() {
    let disk = TaskDisk { final_file: None, part_len: Some(400) };
    assert_eq!(required_download_space(&vec![task(Some(1000), None)], &vec![disk]), 600);
}

#[test]
fn required_download_space_sums_across_files() {
    assert_eq!(
        required_download_space(
            &vec![task(Some(300), None), task(None, None), task(Some(200), None)],
            &vec![nothing(), nothing(), nothing()],
        ),
        500
    );
}

#[test]
fn remaining_space_knows_what_a_removal_frees() {
    // A sparse copy frees only its blocks
    assert_eq!(remaining_bytes_for(&task(Some(10_000), None), &complete(10_000, 1, 4)), 7_952);
    // Where the system does not tell, its length
    let disk = TaskDisk {
        final_file: Some(FileFacts { len: 1000, allocation: None }),
        part_len: Some(1),
    };
    assert_eq!(remaining_bytes_for(&task(Some(1000), None), &disk), 0);
    // A copy of another size is no copy, and a partial file may be too long
    assert_eq!(remaining_bytes_for(&task(Some(1000), None), &complete(999, 1, 8)), 1000);
    let disk = TaskDisk { final_file: None, part_len: Some(2_000) };
    assert_eq!(remaining_bytes_for(&task(Some(1000), None), &disk), 0);
    // Blocks beyond 64 bits do not wrap
    assert_eq!(remaining_bytes_for(&task(Some(5), None), &complete(5, 1, u64::MAX)), 0);
    assert_eq!(
        total_remaining(
            &vec![task(Some(u64::MAX), None), task(Some(1), None)],
            &vec![nothing(), nothing()],
        ),
        u64::MAX as u128 + 1
    );
}

#[test]
fn a_plan_keeps_the_metadata_of_its_files() {
    let mut file = xml_file("a b.txt", Some(9));
    file.md5 = Some("ABC".to_string());
    file.mtime = Some(77);
    let plan = plan_for(vec![file], PathCase::Sensitive);
    assert_eq!(plan.tasks[0].expected_md5.as_deref(), Some("ABC"));
    assert_eq!(plan.tasks[0].expected_size, Some(9));
    assert_eq!(plan.tasks[0].expected_mtime, Some(77));
    assert_eq!(plan.tasks[0].url, "https://archive.org/download/item1/a%20b.txt");
}

#[test]
fn a_directory_clash_reaches_over_levels() {
    let plan = plan_for(
        vec![
            xml_file("a/b/c.txt", Some(1)),
            xml_file("a", Some(2)),
            xml_file("a/b", Some(3)),
            xml_file("a/b/c.txt/d", Some(4)),
            xml_file("a/b/d.txt", Some(5)),
        ],
        PathCase::Sensitive,
    );
    let paths: Vec<&str> = plan.tasks.iter().map(|t| t.file_path.as_str()).collect();
    assert_eq!(paths, vec!["a/b/c.txt", "a/b/d.txt"]);
    assert_eq!(plan.warnings.len(), 3);
}
