//! Which files a run is about.

use ia_get::file_filter::{glob_match, FileFilter};

#[test]
fn glob_match_literal_names() {
    assert!(glob_match("scan.jpg", "scan.jpg"));
    assert!(!glob_match("scan.jpg", "scan.jpeg"));
    assert!(!glob_match("scan.jpg", "x/scan.jpg"));
    // Matching is case-sensitive
    assert!(!glob_match("SCAN.JPG", "scan.jpg"));
    // A '?' in the name is an ordinary character for the wildcard
    assert!(glob_match("a?b.txt", "a?b.txt"));
    assert!(glob_match("a?b.txt", "axb.txt"));
    assert!(!glob_match("aXb.txt", "a?b.txt"));
}

#[test]
fn glob_match_star_crosses_slashes() {
    assert!(glob_match("*.pdf", "scan/01.pdf"));
    assert!(glob_match("*.pdf", "video/parts/02.pdf"));
    assert!(glob_match("*.pdf", "top.pdf"));
    // But the literal characters still anchor the rest of the name
    assert!(!glob_match("*.pdf", "scan/01.jpg"));
}

#[test]
fn glob_match_star_prefix_and_suffix() {
    assert!(glob_match("video/*", "video/a.mp4"));
    assert!(glob_match("video/*", "video/a/b.mp4"));
    assert!(!glob_match("video/*", "audio/a.mp4"));
    // A trailing star swallows the rest, including nothing
    assert!(glob_match("video/*", "video/"));
    assert!(glob_match("*part*", "season_1/part_2.mp4"));
    assert!(glob_match("*.part*", "a.part.b"));
    // A star in the middle spans across separators too
    assert!(glob_match("s*.mp4", "season/1/2.mp4"));
}

#[test]
fn glob_match_question_mark_is_one_character() {
    assert!(glob_match("disk?.img", "disk1.img"));
    assert!(glob_match("disk?.img", "diskA.img"));
    assert!(!glob_match("disk?.img", "disk10.img"));
    // '?' is one character, and '/' is just a character in a name
    assert!(glob_match("disk?.img", "disk/.img"));
    // An empty name matches nothing but a pure star
    assert!(!glob_match("?", ""));
    assert!(glob_match("*", ""));
}

#[test]
fn file_filter_passes_everything_when_empty() {
    let filter = FileFilter::new(vec![], vec![]);
    assert!(filter.is_empty());
    assert!(filter.matches("anything/else.bin"));
}

#[test]
fn file_filter_include_requires_a_match() {
    let filter = FileFilter::new(vec!["*.pdf".to_string()], vec![]);
    assert!(!filter.is_empty());
    assert!(filter.matches("scan/01.pdf"));
    assert!(!filter.matches("cover.jpg"));
}

#[test]
fn file_filter_include_is_or_across_patterns() {
    let filter = FileFilter::new(vec!["*.pdf".to_string(), "cover.jpg".to_string()], vec![]);
    assert!(filter.matches("a/b.pdf"));
    assert!(filter.matches("cover.jpg"));
    assert!(!filter.matches("notes.txt"));
}

#[test]
fn file_filter_exclude_removes_matches() {
    let filter = FileFilter::new(vec![], vec!["*.tmp".to_string(), "video/*".to_string()]);
    assert!(filter.matches("scan/01.pdf"));
    assert!(!filter.matches("work.tmp"));
    assert!(!filter.matches("video/720p.mp4"));
}

#[test]
fn file_filter_include_beats_exclude() {
    // A name matching both an include and an exclude is excluded:
    // the include only narrows the candidates, it does not veto
    // the exclude.
    let filter = FileFilter::new(vec!["*.pdf".to_string()], vec!["*draft*".to_string()]);
    assert!(filter.matches("scan/01.pdf"));
    assert!(!filter.matches("draft/01.pdf"));
    assert!(!filter.matches("scan/01.jpg"));
}

#[test]
fn a_star_in_the_pattern_is_always_a_wildcard() {
    // A name may hold a star of its own: it is matched like any character
    assert!(glob_match("*", "a*b"));
    assert!(glob_match("a*", "a*b"));
    assert!(glob_match("*a", "*xa"));
    assert!(glob_match("a**b", "ab"));
    assert!(!glob_match("a*b", "a*c"));
}

#[test]
fn backtracking_finds_the_last_fit() {
    assert!(glob_match("*aab", "aaaab"));
    assert!(glob_match("a*b*c", "axbxbxc"));
    assert!(!glob_match("a*b*c", "axcxb"));
    assert!(glob_match("*?", "x"));
    assert!(!glob_match("*??", "x"));
    assert!(glob_match("", ""));
    assert!(!glob_match("", "x"));
}

#[test]
fn the_default_filter_is_empty() {
    let filter = FileFilter::default();
    assert!(filter.is_empty());
    assert!(filter.matches(""));
    assert!(filter.matches("a/b"));
}

#[test]
fn an_exclude_alone_is_not_empty() {
    let filter = FileFilter::new(vec![], vec!["*".to_string()]);
    assert!(!filter.is_empty());
    assert!(!filter.matches("anything"));
}
