//! Archive URLs, the metadata document, and file lists.

use ia_get::archive_metadata::{
    check_accessible, error_context, get_xml_url, list_file_rows, list_summary,
    metadata_from_document, parse_archive_url, parse_error_line, parse_xml_files,
    total_known_size, validate_archive_url, xml_file_name_of, XmlFile, XmlFiles,
    XML_DEBUG_TRUNCATE_LEN,
};
use ia_get::error::{IaGetError, XmlFault};
use ia_get::link::Link;
use ia_get::percent::{encode_download_path, percent_decode};

fn xml_file(name: &str, size: Option<u64>) -> XmlFile {
    XmlFile { name: name.to_string(), size, ..Default::default() }
}

/// A file entry as the XML parser gives it.
struct Entry(XmlFile);

/// A files list as the XML parser gives it.
struct Entries(Vec<Entry>);

struct EntryVisitor;

struct EntriesVisitor;

impl<'de> serde::de::Visitor<'de> for EntryVisitor {
    type Value = Entry;

    fn expecting(&self, f: &mut std::fmt::Formatter<'_>) -> std::fmt::Result {
        f.write_str("a file entry")
    }

    fn visit_map<A: serde::de::MapAccess<'de>>(self, mut map: A) -> Result<Entry, A::Error> {
        let mut file = XmlFile::default();
        while let Some(key) = map.next_key::<String>()? {
            match key.as_str() {
                "@name" => file.name = map.next_value()?,
                "@source" => file.source = Some(map.next_value()?),
                "size" => file.size = Some(map.next_value()?),
                _ => {
                    map.next_value::<serde::de::IgnoredAny>()?;
                }
            }
        }
        Ok(Entry(file))
    }
}

impl<'de> serde::de::Visitor<'de> for EntriesVisitor {
    type Value = Entries;

    fn expecting(&self, f: &mut std::fmt::Formatter<'_>) -> std::fmt::Result {
        f.write_str("a files list")
    }

    fn visit_map<A: serde::de::MapAccess<'de>>(self, mut map: A) -> Result<Entries, A::Error> {
        let mut list = Vec::new();
        while let Some(key) = map.next_key::<String>()? {
            if key == "file" {
                let mut more: Vec<Entry> = map.next_value()?;
                list.append(&mut more);
            } else {
                map.next_value::<serde::de::IgnoredAny>()?;
            }
        }
        Ok(Entries(list))
    }
}

impl<'de> serde::Deserialize<'de> for Entry {
    fn deserialize<D: serde::Deserializer<'de>>(d: D) -> Result<Self, D::Error> {
        d.deserialize_struct("XmlFile", &["@name", "@source", "size"], EntryVisitor)
    }
}

impl<'de> serde::Deserialize<'de> for Entries {
    fn deserialize<D: serde::Deserializer<'de>>(d: D) -> Result<Self, D::Error> {
        d.deserialize_struct("XmlFiles", &["file"], EntriesVisitor)
    }
}

/// What the XML parser makes of a document.
fn parsed(xml: &str) -> Result<XmlFiles, XmlFault> {
    match serde_xml_rs::from_str::<Entries>(xml) {
        Ok(list) => Ok(XmlFiles { files: list.0.into_iter().map(|entry| entry.0).collect() }),
        Err(e) => Err(XmlFault { message: e.to_string() }),
    }
}

#[test]
fn file_entry_without_source_attribute_parses() {
    let xml = "<files><file name=\"a.bin\"><size>3</size></file></files>";
    let files = parse_xml_files(xml, parsed(xml)).expect("source attribute must be optional");
    assert_eq!(files.files.len(), 1);
    assert_eq!(files.files[0].name, "a.bin");
    assert!(files.files[0].source.is_none());
}

#[test]
fn file_entry_with_source_attribute_parses() {
    let xml = "<files><file name=\"a.bin\" source=\"original\"><size>3</size></file></files>";
    let files = parse_xml_files(xml, parsed(xml)).expect("valid metadata must parse");
    assert_eq!(files.files[0].source.as_deref(), Some("original"));
}

#[test]
fn parse_error_line_reads_the_parser_position() {
    assert_eq!(parse_error_line("Reader: 12:34 Unexpected closing tag: a != b"), Some(12));
    assert_eq!(parse_error_line("Reader: 1:44 EOF"), Some(1));
    assert_eq!(parse_error_line("no position here"), None);
}

#[test]
fn xml_parse_error_shows_context_around_failing_line() {
    let filler = (0..40)
        .map(|i| format!("  <file name=\"filler{i}\"/>"))
        .collect::<Vec<_>>()
        .join("\n");
    let xml = format!("<files>\n{filler}\n</strange>\n</files>");
    let msg = parse_xml_files(&xml, parsed(&xml)).unwrap_err().to_text();

    assert!(msg.contains("42:"), "must name the failing line: {msg}");
    assert!(msg.contains("»    42"), "the failing line must be marked: {msg}");
    assert!(msg.contains("strange"), "the context must include the failing line: {msg}");
    assert!(
        !msg.contains("filler0"),
        "the context must not start at the document head: {msg}"
    );
}

#[test]
fn error_context_without_position_shows_document_head() {
    let xml = format!("{}\n<files/>", "x".repeat(100));
    let ctx = error_context(&xml, None);
    assert!(ctx.contains(&"x".repeat(100)));
    assert!(ctx.contains("1"), "head context starts at line 1");
}

#[test]
fn error_context_caps_very_long_lines() {
    let line = "字".repeat(3 * XML_DEBUG_TRUNCATE_LEN);
    let ctx = error_context(&line, Some(1));
    assert!(
        ctx.chars().count() <= XML_DEBUG_TRUNCATE_LEN + 16,
        "the preview must stay bounded, got {} chars",
        ctx.chars().count()
    );
}

#[test]
fn error_context_clamps_anchor_past_the_end() {
    let xml = "<files>\n<file/>\n";
    let ctx = error_context(xml, Some(999));
    assert!(ctx.contains("2"), "the anchor must clamp to the last line");
    assert!(ctx.contains("»"), "the clamped line must be marked");
}

#[test]
fn error_context_counts_lines_with_trailing_newline() {
    let ctx = error_context("a\nb\n", Some(99));
    assert!(ctx.contains("»     2"), "the anchor must clamp to the last line: {ctx}");
    assert!(!ctx.contains('3'), "no phantom third line: {ctx}");
}

#[test]
fn error_context_on_empty_document_keeps_the_marker() {
    let ctx = error_context("", Some(1));
    assert!(ctx.contains("»"), "the marker must survive an empty document: {ctx}");
    assert!(ctx.contains("     1"), "the head line number must survive: {ctx}");
}

#[test]
fn parse_archive_url_reads_item_urls_without_a_file() {
    for (url, identifier) in [
        ("https://archive.org/details/Valid-Pattern", "Valid-Pattern"),
        ("https://archive.org/details/Valid-Pattern/", "Valid-Pattern"),
        ("https://archive.org/details/test123", "test123"),
        ("https://archive.org/details/test123/", "test123"),
        ("https://archive.org/details/test_file-name.data", "test_file-name.data"),
        ("https://archive.org/details/user@domain", "user@domain"),
        ("https://archive.org/download/item1", "item1"),
        ("https://archive.org/download/item1/", "item1"),
    ] {
        let target = parse_archive_url(url).expect("{url} must parse");
        assert_eq!(target.identifier, identifier, "{url}");
        assert!(target.file_path.is_none(), "{url} must name no file");
    }
}

#[test]
fn parse_archive_url_reads_the_file_path_from_urls_with_one() {
    let target = parse_archive_url("https://archive.org/download/item1/scan/01.pdf")
        .expect("a download URL with a file path");
    assert_eq!(target.identifier, "item1");
    assert_eq!(target.file_path.as_deref(), Some("scan/01.pdf"));

    let target = parse_archive_url("https://archive.org/details/item1/scan/01.pdf/").unwrap();
    assert_eq!(target.file_path.as_deref(), Some("scan/01.pdf"));
}

#[test]
fn parse_archive_url_percent_decodes_file_paths() {
    let target =
        parse_archive_url("https://archive.org/download/item1/Season%201/clip%231.mp4").unwrap();
    assert_eq!(target.file_path.as_deref(), Some("Season 1/clip#1.mp4"));

    let target = parse_archive_url("https://archive.org/download/item1/100%25off.mp4").unwrap();
    assert_eq!(target.file_path.as_deref(), Some("100%off.mp4"));

    let target = parse_archive_url("https://archive.org/download/item1/weird%name.bin").unwrap();
    assert_eq!(target.file_path.as_deref(), Some("weird%name.bin"));
}

#[test]
fn parse_archive_url_rejects_invalid_urls() {
    for url in [
        "https://archive.org/details/",
        "https://archive.org/details/Invalid-Pattern-*",
        "https://example.com/details/test",
        "http://archive.org/details/test",
        "https://archive.org/details/test//",
        "https://archive.org/download/item1/%ff",
        "archive.org/details/test",
    ] {
        assert!(parse_archive_url(url).is_err(), "{url} must be rejected");
    }
}

#[test]
fn get_xml_url_builds_the_files_list_url_from_the_identifier() {
    assert_eq!(
        get_xml_url("item1").unwrap().href,
        "https://archive.org/download/item1/item1_files.xml"
    );
    assert_eq!(
        get_xml_url("another-item_v2.0").unwrap().href,
        "https://archive.org/download/another-item_v2.0/another-item_v2.0_files.xml"
    );
}

#[test]
fn encode_download_path_escapes_url_specials() {
    assert_eq!(encode_download_path("clip#1.mp4"), "clip%231.mp4");
    assert_eq!(encode_download_path("a?b.mp4"), "a%3Fb.mp4");
    assert_eq!(encode_download_path("100%25off.mp4"), "100%2525off.mp4");
    assert_eq!(
        encode_download_path("sub dir/файл.mp4"),
        "sub%20dir/%D1%84%D0%B0%D0%B9%D0%BB.mp4"
    );
    assert_eq!(encode_download_path("plain-file_v2.0.tar.gz"), "plain-file_v2.0.tar.gz");
}

#[test]
fn encode_download_path_drops_dot_segments() {
    assert_eq!(encode_download_path("../outside.mp4"), "outside.mp4");
    assert_eq!(encode_download_path("a/./b.mp4"), "a/b.mp4");
    assert_eq!(
        encode_download_path(".."),
        "",
        "a dot-segment-only name encodes to nothing and is skipped"
    );
}

#[test]
fn encode_download_path_drops_leading_slashes() {
    assert_eq!(encode_download_path("/foo.mp4"), "foo.mp4");
    assert_eq!(encode_download_path("//evil.example/x.mp4"), "evil.example/x.mp4");
    assert_eq!(encode_download_path("a//b.mp4"), "a//b.mp4");
}

#[test]
fn leading_slash_name_stays_under_item() {
    let base = Link::parse("https://archive.org/download/item1/item1_files.xml").unwrap();
    let joined = base
        .join(&encode_download_path("//evil.example/x.mp4"))
        .expect("encoded name must join against the base URL");
    assert_eq!(joined.href, "https://archive.org/download/item1/evil.example/x.mp4");
}

#[test]
fn file_url_join_must_not_silently_fall_back() {
    let base = Link::parse("https://archive.org/download/item1/item1_files.xml").unwrap();
    let joined = base
        .join(&encode_download_path("Season 1/clip#1.mp4"))
        .expect("encoded name must join against the base URL");
    assert_eq!(joined.href, "https://archive.org/download/item1/Season%201/clip%231.mp4");
}

#[test]
fn list_file_rows_format_sizes_and_unknown_entries() {
    let files = XmlFiles {
        files: vec![xml_file("cover.jpg", Some(12_345)), xml_file("metadata.xml", None)],
    };
    assert_eq!(
        list_file_rows(&files, "item1_files.xml")
            .iter()
            .map(|row| row.plain())
            .collect::<Vec<_>>(),
        vec!["  12.06KB cover.jpg".to_string(), "  unknown metadata.xml".to_string()]
    );
}

#[test]
fn list_file_rows_marks_the_xml_metadata_entry() {
    let files = XmlFiles {
        files: vec![xml_file("cover.jpg", Some(12_345)), xml_file("item1_files.xml", Some(23))],
    };
    assert_eq!(
        list_file_rows(&files, "item1_files.xml")
            .iter()
            .map(|row| row.plain())
            .collect::<Vec<_>>(),
        vec![
            "  12.06KB cover.jpg".to_string(),
            "      23B item1_files.xml (metadata)".to_string(),
        ]
    );
}

#[test]
fn list_summary_reports_total_known_size_and_unknown_count() {
    let files = XmlFiles {
        files: vec![
            xml_file("disk1.zip", Some(1_048_576)),
            xml_file("disk2.zip", Some(2_097_152)),
            xml_file("notes.txt", None),
        ],
    };
    assert_eq!(list_summary(&files), "3 files, 3.00MB total known size, 1 unknown size");
}

#[test]
fn list_summary_counts_what_is_known() {
    let one = XmlFiles { files: vec![xml_file("a", Some(1))] };
    assert_eq!(list_summary(&one), "1 file, 1B total");
    let none = XmlFiles { files: vec![] };
    assert_eq!(list_summary(&none), "0 files, 0B total");
    let two = XmlFiles { files: vec![xml_file("a", None), xml_file("b", None)] };
    assert_eq!(list_summary(&two), "2 files, 0B total known size, 2 unknown sizes");
    let large = XmlFiles { files: vec![xml_file("a", Some(u64::MAX)), xml_file("b", Some(1))] };
    assert_eq!(total_known_size(&large), None);
    assert_eq!(total_known_size(&one), Some(1));
}

#[test]
fn a_readable_document_becomes_the_metadata() {
    let url = get_xml_url("item1").unwrap();
    let files = XmlFiles { files: vec![xml_file("a.bin", Some(3))] };
    let metadata =
        metadata_from_document(&url, "<files/>".to_string(), Ok(files), Some(7)).unwrap();
    assert_eq!(metadata.files.files[0].name, "a.bin");
    assert_eq!(metadata.base_url.href, url.href);
    assert_eq!(metadata.content, "<files/>");
    assert_eq!(metadata.last_modified, Some(7));
    assert_eq!(xml_file_name_of(&url), "item1_files.xml");
}

#[test]
fn an_unreadable_document_is_an_xml_error() {
    let url = get_xml_url("item1").unwrap();
    let fault = XmlFault { message: "Reader: 2:1 EOF".to_string() };
    let err = metadata_from_document(&url, "<files>\n<f".to_string(), Err(fault), None).unwrap_err();
    match err {
        IaGetError::XmlParsing(detail) => {
            assert_eq!(
                detail,
                "Failed to parse _files.xml metadata: Reader: 2:1 EOF. Context:\n      1  <files>\n»     2  <f\n"
            );
        }
        other => panic!("got {other:?}"),
    }
}

#[test]
fn only_an_absent_document_fails_the_pre_check() {
    assert!(check_accessible(Some(200)).is_ok());
    // A proxy that rejects HEAD, a transient error and no answer at all are
    // left to the GET that follows
    assert!(check_accessible(Some(405)).is_ok());
    assert!(check_accessible(Some(500)).is_ok());
    assert!(check_accessible(None).is_ok());
    for (code, status) in [(404, "404 Not Found"), (410, "410 Gone")] {
        let text = check_accessible(Some(code)).unwrap_err().to_text();
        assert_eq!(
            text,
            format!(
                "Network error: XML metadata not found (HTTP {status}): the archive identifier may be incorrect"
            )
        );
    }
}

#[test]
fn details_urls_alone_are_validated() {
    assert!(validate_archive_url("https://archive.org/details/valid-item").is_ok());
    assert!(validate_archive_url("https://archive.org/details/valid-item/").is_ok());
    let err = validate_archive_url("https://example.com/invalid").unwrap_err();
    assert!(matches!(&err, IaGetError::UrlFormat(url) if url == "https://example.com/invalid"));
}

#[test]
fn decoding_undoes_encoding() {
    for name in ["a b/c#d?e%f.mp4", "файл/é.txt", "100%25", "plain", "a//b"] {
        let encoded = encode_download_path(name);
        assert_eq!(percent_decode(&encoded).as_deref(), Some(name));
    }
}

#[test]
fn escapes_that_are_none_stay_as_they_are() {
    assert_eq!(percent_decode("%+5").as_deref(), Some("%+5"));
    assert_eq!(percent_decode("%é1").as_deref(), Some("%é1"));
    assert_eq!(percent_decode("100%").as_deref(), Some("100%"));
    assert_eq!(percent_decode("%4").as_deref(), Some("%4"));
    assert_eq!(percent_decode("%41%e2%82%ac").as_deref(), Some("A€"));
    assert_eq!(percent_decode("%ff"), None);
    assert_eq!(percent_decode("%e2%82"), None);
}

#[test]
fn a_download_url_of_an_encoded_name_names_the_file() {
    for name in ["Season 1/clip#1.mp4", "100%off.mp4", "файл.bin"] {
        let url = format!("https://archive.org/download/item1/{}", encode_download_path(name));
        let target = parse_archive_url(&url).unwrap();
        assert_eq!(target.identifier, "item1");
        assert_eq!(target.file_path.as_deref(), Some(name));
    }
}

#[test]
fn head_405_does_not_block_the_get() {
    check_accessible(Some(405)).expect("a 405 on HEAD must not block the GET");
    let xml = "<files><file name=\"a.bin\"/></files>";
    let url = get_xml_url("item1").unwrap();
    let metadata = metadata_from_document(&url, xml.to_string(), parsed(xml), None).unwrap();
    assert_eq!(metadata.files.files.len(), 1);
}

#[test]
fn head_404_is_fatal() {
    match check_accessible(Some(404)).expect_err("a 404 on HEAD must fail the fetch") {
        IaGetError::Network { detail, .. } => assert!(
            detail.contains("404"),
            "expected the status code in the error, got: {detail}"
        ),
        other => panic!("expected a Network error, got: {other:?}"),
    }
}

#[test]
fn xml_metadata_success_parses_files() {
    let xml = "<files><file name=\"item1_files.xml\" source=\"original\"><size>23</size></file><file name=\"scan.jpg\" source=\"original\"><size>456</size></file></files>";
    let url = get_xml_url("item1").unwrap();
    check_accessible(Some(200)).expect("the HEAD check must pass");
    let metadata = metadata_from_document(&url, xml.to_string(), parsed(xml), None)
        .expect("metadata fetch should succeed");
    assert_eq!(metadata.files.files.len(), 2);
    assert_eq!(metadata.files.files[1].name, "scan.jpg");
    assert_eq!(metadata.content, xml);
}
