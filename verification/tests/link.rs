//! URLs, headers and status lines.

use ia_get::header::read_header;
use ia_get::link::Link;
use ia_get::status::{reason_text, status_text};

#[test]
fn links_hold_the_parts_of_a_url() {
    let link = Link::parse("HTTPS://Archive.ORG:443/a b/../c?q#f").unwrap();
    assert_eq!(link.href, "https://archive.org/c?q#f");
    assert_eq!(link.scheme, "https");
    assert_eq!(link.host.as_deref(), Some("archive.org"));
    assert_eq!(link.path, "/c");
    let mail = Link::parse("mailto:x").unwrap();
    assert_eq!(mail.host, None);
    assert_eq!(mail.path, "x");
    assert_eq!(Link::parse("nowhere").unwrap_err().message, "relative URL without a base");
}

#[test]
fn links_join_like_urls() {
    let base = Link::parse("https://archive.org/download/item1/item1_files.xml").unwrap();
    assert_eq!(base.join("x/y").unwrap().href, "https://archive.org/download/item1/x/y");
    assert_eq!(base.join("/x").unwrap().href, "https://archive.org/x");
    assert_eq!(base.join("//other/x").unwrap().href, "https://other/x");
    assert_eq!(base.join("../z").unwrap().href, "https://archive.org/download/z");
    assert_eq!(base.join("").unwrap().href, base.href);
    assert!(base.join("https://[").is_err());
    let again = base.duplicate();
    assert_eq!((again.href, again.path), (base.href, base.path));
}

#[test]
fn settled_urls_join_below_their_directory() {
    // Neither is resolved nor re-encoded
    let base = Link::parse("https://archive.org/download/item1/item1_files.xml").unwrap();
    for reference in ["a", "a/b.c", "-._~", "%20", "a//b", "0/1/2", "A%D1%84", "...", ".a", "a.", "%2Ea"] {
        assert_eq!(
            base.join(reference).unwrap().href,
            format!("https://archive.org/download/item1/{reference}")
        );
    }
    // A dot segment is resolved, though it is escaped
    assert_eq!(base.join("%2E%2E").unwrap().href, "https://archive.org/download/");
}

#[test]
fn headers_read_as_visible_text() {
    assert_eq!(read_header(&Some(b"a b\t~".to_vec())).as_deref(), Some("a b\t~"));
    assert_eq!(read_header(&Some(vec![])).as_deref(), Some(""));
    assert_eq!(read_header(&Some(vec![0x80])), None);
    assert_eq!(read_header(&None), None);
}

#[test]
fn status_lines_name_their_reason() {
    assert_eq!(status_text(404), "404 Not Found");
    assert_eq!(status_text(200), "200 OK");
    assert_eq!(status_text(799), "799 <unknown status code>");
    assert_eq!(reason_text(503, "unknown status"), "Service Unavailable");
    assert_eq!(reason_text(799, "unknown status"), "unknown status");
}
