//! Names that are safe on every file system.

use ia_get::filename::sanitize_filename;

#[test]
fn test_sanitize_valid_filename() {
    let (result, modified) = sanitize_filename("normal_file-name.txt");
    assert_eq!(result, "normal_file-name.txt");
    assert!(!modified);
}

#[test]
fn test_sanitize_valid_filename_with_path() {
    let (result, modified) = sanitize_filename("folder/subfolder/file.txt");
    assert_eq!(result, "folder/subfolder/file.txt");
    assert!(!modified);
}

#[test]
fn test_sanitize_invalid_characters() {
    let (result, modified) = sanitize_filename("file?name:test<>.txt");
    assert_eq!(result, "file_name_test__.txt");
    assert!(modified);
}

#[test]
fn test_sanitize_question_mark() {
    let (result, modified) = sanitize_filename("Episode?.mp4");
    assert_eq!(result, "Episode_.mp4");
    assert!(modified);
}

#[test]
fn test_sanitize_with_path() {
    let (result, modified) = sanitize_filename("Season 1/Episode?.mp4");
    assert_eq!(result, "Season 1/Episode_.mp4");
    assert!(modified);
}

#[test]
fn test_sanitize_multiple_invalid_in_path() {
    let (result, modified) = sanitize_filename("Folder:Name/File*Name?.txt");
    assert_eq!(result, "Folder_Name/File_Name_.txt");
    assert!(modified);
}

#[test]
fn test_sanitize_windows_reserved_names() {
    let (result, modified) = sanitize_filename("CON.txt");
    assert_eq!(result, "CON_.txt");
    assert!(modified);

    let (result, modified) = sanitize_filename("con.txt");
    assert_eq!(result, "con_.txt");
    assert!(modified);

    let (result, modified) = sanitize_filename("PRN");
    assert_eq!(result, "PRN_");
    assert!(modified);

    let (result, modified) = sanitize_filename("aux.log");
    assert_eq!(result, "aux_.log");
    assert!(modified);

    let (result, modified) = sanitize_filename("COM1.dat");
    assert_eq!(result, "COM1_.dat");
    assert!(modified);

    let (result, modified) = sanitize_filename("LPT9.txt");
    assert_eq!(result, "LPT9_.txt");
    assert!(modified);
}

#[test]
fn test_sanitize_console_device_aliases() {
    // The console's extra device aliases are reserved names too
    let (result, modified) = sanitize_filename("CONIN$");
    assert_eq!(result, "CONIN$_");
    assert!(modified);

    let (result, modified) = sanitize_filename("CONOUT$.txt");
    assert_eq!(result, "CONOUT$_.txt");
    assert!(modified);

    let (result, modified) = sanitize_filename("clock$");
    assert_eq!(result, "clock$_");
    assert!(modified);
}

#[test]
fn test_sanitize_superscript_device_names() {
    // Windows folds Unicode superscript digits in device-name matching:
    // "COM¹" would open the COM1 device unmarked
    let (result, modified) = sanitize_filename("COM¹.txt");
    assert_eq!(result, "COM¹_.txt");
    assert!(modified);

    let (result, modified) = sanitize_filename("lpt²");
    assert_eq!(result, "lpt²_");
    assert!(modified);
}

#[test]
fn test_sanitize_reserved_in_path() {
    let (result, modified) = sanitize_filename("folder/CON.txt");
    assert_eq!(result, "folder/CON_.txt");
    assert!(modified);
}

#[test]
fn test_sanitize_control_characters() {
    let (result, modified) = sanitize_filename("file\x00\x1fname.txt");
    assert_eq!(result, "file__name.txt");
    assert!(modified);

    let (result, modified) = sanitize_filename("test\x7Ffile.txt");
    assert_eq!(result, "test_file.txt");
    assert!(modified);
}

#[test]
fn test_sanitize_backslash() {
    let (result, modified) = sanitize_filename("folder\\file.txt");
    assert_eq!(result, "folder_file.txt");
    assert!(modified);
}

#[test]
fn test_sanitize_whitespace_edge_cases() {
    let (result, modified) = sanitize_filename(" leading.txt ");
    assert_eq!(result, "leading.txt");
    assert!(modified);

    let (result, modified) = sanitize_filename("folder/ spaces /file.txt");
    assert_eq!(result, "folder/spaces/file.txt");
    assert!(modified);
}

#[test]
fn test_sanitize_drops_dot_segments() {
    // "." and ".." must not survive: kept, a server-controlled name
    // could escape the working directory.
    let (result, modified) = sanitize_filename("../../etc/passwd");
    assert_eq!(result, "etc/passwd");
    assert!(modified);

    let (result, modified) = sanitize_filename("a/./b/c.txt");
    assert_eq!(result, "a/b/c.txt");
    assert!(modified);

    let (result, modified) = sanitize_filename("a/b.txt");
    assert_eq!(result, "a/b.txt");
    assert!(!modified);
}

#[test]
fn test_sanitize_trailing_dots() {
    let (result, modified) = sanitize_filename("file...");
    assert_eq!(result, "file");
    assert!(modified);

    let (result, modified) = sanitize_filename("folder./file.txt");
    assert_eq!(result, "folder/file.txt");
    assert!(modified);
}

#[test]
fn test_sanitize_trailing_dots_and_spaces() {
    // A space before a trailing dot must not survive the dot removal
    // (Windows rejects names ending in a space)
    let (result, modified) = sanitize_filename("file .");
    assert_eq!(result, "file");
    assert!(modified);

    let (result, modified) = sanitize_filename("a/ b . ./c.txt");
    assert_eq!(result, "a/b/c.txt");
    assert!(modified);
}

#[test]
fn test_sanitize_empty_components() {
    let (result, modified) = sanitize_filename("folder//file.txt");
    assert_eq!(result, "folder/file.txt");
    assert!(modified);

    let (result, modified) = sanitize_filename("/folder/file.txt");
    assert_eq!(result, "folder/file.txt");
    assert!(modified);

    let (result, modified) = sanitize_filename("folder/file.txt/");
    assert_eq!(result, "folder/file.txt");
    assert!(modified);
}

#[test]
fn test_sanitize_all_invalid() {
    let (result, modified) = sanitize_filename("???");
    assert_eq!(result, "___");
    assert!(modified);
}

#[test]
fn test_sanitize_unicode() {
    let (result, modified) = sanitize_filename("файл.txt");
    assert_eq!(result, "файл.txt");
    assert!(!modified);

    let (result, modified) = sanitize_filename("文件.txt");
    assert_eq!(result, "文件.txt");
    assert!(!modified);

    let (result, modified) = sanitize_filename("emoji😀.txt");
    assert_eq!(result, "emoji😀.txt");
    assert!(!modified);
}

#[test]
fn test_sanitize_mixed_valid_invalid() {
    let (result, modified) =
        sanitize_filename("Red vs. Blue - Season 1/Episode 1: Why Are We Here?.mp4");
    assert_eq!(
        result,
        "Red vs. Blue - Season 1/Episode 1_ Why Are We Here_.mp4"
    );
    assert!(modified);
}

#[test]
fn test_sanitize_preserves_extension() {
    let (result, modified) = sanitize_filename("file:name.tar.gz");
    assert_eq!(result, "file_name.tar.gz");
    assert!(modified);
}

#[test]
fn sanitizing_twice_changes_nothing_more() {
    for name in [
        "CON.txt",
        "a/ b . ./c.txt",
        "file?name:test<>.txt",
        " . ",
        "COM¹.txt",
        "../../etc/passwd",
        "plain/name.txt",
    ] {
        let (once, modified) = sanitize_filename(name);
        assert_eq!(modified, once != name);
        let (twice, again) = sanitize_filename(&once);
        assert_eq!(once, twice);
        assert!(!again, "{name:?} must be clean after one pass");
    }
}

#[test]
fn sanitized_components_hold_nothing_unsafe() {
    let (clean, _) = sanitize_filename("..\\x/./aux/ /na|me. /\u{7f}");
    for part in clean.split('/') {
        assert!(!part.is_empty() && part != "." && part != "..");
        assert!(!part.ends_with('.') && !part.ends_with(' ') && !part.starts_with(' '));
        assert!(part.chars().all(|c| !"<>:\"|?*\\".contains(c) && !c.is_control()));
    }
    assert_eq!(clean, ".._x/aux_/_/na_me/_");
}

#[test]
fn a_name_of_nothing_but_separators_leaves_nothing() {
    assert_eq!(sanitize_filename(""), (String::new(), false));
    assert_eq!(sanitize_filename("//"), (String::new(), true));
    assert_eq!(sanitize_filename("./.."), (String::new(), true));
    assert_eq!(sanitize_filename(" . / .. "), ("_/_".to_string(), true));
}
