//! Cookies: read, scoped, and sent.

use ia_get::cookie::{
    check_cookie_file_size, cookie_applies_to_url, cookie_header_at, cookie_header_for,
    cookie_header_for_at, cookie_header_from_input, cookie_header_from_netscape_file,
    cookie_header_value, cookie_source, filter_encodable, parse_netscape_cookies, CookieSource,
    MAX_COOKIE_FILE_BYTES,
};
use ia_get::error::IaGetError;
use ia_get::link::Link;

fn cookie_test_url(path: &str) -> Link {
    Link::parse(&format!("https://archive.org{path}")).unwrap()
}

fn header_of(cookies: &str, path: &str) -> String {
    cookie_header_from_netscape_file(cookies, &cookie_test_url(path)).unwrap().0
}

#[test]
fn cookie_header_accepts_raw_cookie_string() {
    assert_eq!(
        cookie_header_from_input(
            "logged-in-user=yes; logged-in-sig=abc123",
            None,
            &cookie_test_url("/download/item/item_files.xml"),
        )
        .unwrap()
        .0,
        "logged-in-user=yes; logged-in-sig=abc123"
    );
}

#[test]
fn cookie_header_parses_netscape_cookie_file_content() {
    let cookies = "# Netscape HTTP Cookie File\n\
.archive.org\tTRUE\t/\tFALSE\t2145916800\tlogged-in-user\tyes\n\
archive.org\tFALSE\t/\tTRUE\t2145916800\tlogged-in-sig\tabc123\n";
    assert_eq!(
        header_of(cookies, "/download/item/item_files.xml"),
        "logged-in-user=yes; logged-in-sig=abc123"
    );
}

#[test]
fn cookie_header_respects_domain_and_path_scoping() {
    let cookies = "# Netscape HTTP Cookie File\n\
.archive.org\tTRUE\t/download\tFALSE\t2145916800\tdownload-root\tyes\n\
archive.org\tFALSE\t/account\tFALSE\t2145916800\taccount-only\tnope\n\
example.com\tFALSE\t/download\tFALSE\t2145916800\twrong-domain\tnope\n\
archive.org\tFALSE\t/download/private\tFALSE\t2145916800\tprivate-only\tsecret\n";
    assert_eq!(header_of(cookies, "/download/item/file.zip"), "download-root=yes");
    assert_eq!(
        header_of(cookies, "/download/private/file.zip"),
        "private-only=secret; download-root=yes"
    );
}

#[test]
fn cookie_header_orders_same_name_by_path_specificity() {
    let cookies = "# Netscape HTTP Cookie File\n\
archive.org\tFALSE\t/download/item1\tFALSE\t2145916800\tsession\tfile-scope\n\
archive.org\tFALSE\t/\tFALSE\t2145916800\tsession\troute-scope\n";
    assert_eq!(
        header_of(cookies, "/download/item1/item1_files.xml"),
        "session=file-scope; session=route-scope"
    );
}

#[test]
fn cookie_header_never_matches_foreign_or_wildcard_domains() {
    let cookies = "# Netscape HTTP Cookie File\n\
.com\tTRUE\t/\tFALSE\t2145916800\twildcard\tvalue\n\
evilarchive.org\tFALSE\t/\tFALSE\t2145916800\tlookalike\tvalue\n\
www.archive.org\tTRUE\t/\tFALSE\t2145916800\tsub-scoped\tvalue\n";
    assert_eq!(
        header_of(cookies, "/download/item/item_files.xml"),
        "",
        "none of these cookies may reach the request"
    );
}

#[test]
fn cookie_header_skips_non_encodable_cookie_and_keeps_others() {
    let cookies = "archive.org\tFALSE\t/\tFALSE\t2145916800\tsession\tabc123\n\
archive.org\tFALSE\t/\tFALSE\t2145916800\tbinary\tbad\x01value\n";
    assert_eq!(
        header_of(cookies, "/download/item/item_files.xml"),
        "session=abc123",
        "the encodable cookie must survive"
    );
}

#[test]
fn cookie_header_ignores_expired_netscape_cookies() {
    let cookies = "archive.org\tFALSE\t/\tFALSE\t1\told\tvalue\n\
archive.org\tFALSE\t/\tFALSE\t2145916800\tcurrent\tvalue\n";
    assert_eq!(header_of(cookies, "/download/item/item_files.xml"), "current=value");
}

#[test]
fn cookie_header_file_with_cookie_lines_is_parsed() {
    let header = cookie_header_from_input(
        "/tmp/ia-get-cookie-review=1",
        Some("archive.org\tFALSE\t/\tFALSE\t2145916800\tsession\tvalue\n"),
        &cookie_test_url("/download/item/f.xml"),
    )
    .expect("cookies.txt must parse")
    .0;
    assert_eq!(header, "session=value");
}

#[test]
fn cookie_header_file_with_only_expired_cookies_is_empty() {
    let header = cookie_header_from_input(
        "/tmp/ia-get-cookie-expired-only",
        Some("archive.org\tFALSE\t/\tFALSE\t1\told\tvalue\n"),
        &cookie_test_url("/download/item/f.xml"),
    )
    .expect("an expired-cookies file must still parse")
    .0;
    assert_eq!(header, "", "expired cookies must not reach the header");
}

#[test]
fn cookie_header_colliding_filename_is_kept_as_raw_string() {
    let input = "/tmp/ia-get-cookie-collide=1";
    let header = cookie_header_from_input(
        input,
        Some("not a cookie file\n"),
        &cookie_test_url("/download/item/f.xml"),
    )
    .expect("input must be kept as a cookie string")
    .0;
    assert_eq!(header, input.trim(), "the cookie-looking input must survive");
}

#[test]
fn cookie_source_keeps_subdomain_scoped_cookies_but_never_sends_them() {
    let content = "# Netscape HTTP Cookie File\n\
www.archive.org\tTRUE\t/\tFALSE\t2145916800\tsession\tvalue\n";
    let (source, warnings) = cookie_source(
        Some("cookies.txt"),
        Some(content),
        &cookie_test_url("/download/item1/item1_files.xml"),
    )
    .expect("the entry must still be retained");
    let source = source.expect("a source was given");
    assert!(!warnings.is_empty(), "a cookie that no request can carry is worth a warning");
    assert_eq!(
        cookie_header_for(Some(&source), &cookie_test_url("/download/item1/file.bin")).unwrap(),
        None,
        "a www-scoped cookie must never reach an archive.org request"
    );
}

#[test]
fn cookie_source_scopes_each_request_url_its_own_way() {
    let content = "# Netscape HTTP Cookie File\n\
archive.org\tFALSE\t/\tFALSE\t2145916800\tlogin\troot\n\
archive.org\tFALSE\t/download/item1\tFALSE\t2145916800\tlogin\titem-scope\n";
    let source = cookie_source(
        Some("cookies.txt"),
        Some(content),
        &cookie_test_url("/download/item1/item1_files.xml"),
    )
    .expect("the file must parse into a source")
    .0
    .expect("cookies were given");

    let xml_url = cookie_test_url("/download/item1/item1_files.xml");
    let other_item_url = cookie_test_url("/download/item2/other.bin");
    assert_eq!(
        cookie_header_for(Some(&source), &xml_url).unwrap().unwrap(),
        "login=item-scope; login=root"
    );
    assert_eq!(
        cookie_header_for(Some(&source), &other_item_url).unwrap().unwrap(),
        "login=root",
        "the item-scoped cookie must not ride along on item2"
    );
}

#[test]
fn cookie_lines_are_read_field_by_field() {
    let cookies = parse_netscape_cookies(
        "#HttpOnly_.archive.org\tTRUE\t/\tTRUE\t0\tname\tvalue\n\
# a comment\n\
too\tfew\tfields\n\
\n",
    );
    for cookie in &cookies {
        assert_eq!(cookie.name, "name");
        assert_eq!(cookie.value, "value");
        assert!(cookie.secure);
        assert!(cookie.include_subdomains);
        assert_eq!(cookie.path, "/");
    }
    let plain = parse_netscape_cookies("archive.org\tFALSE\t/a\tFALSE\t12\tn\tv\n");
    assert_eq!(plain.len(), 1);
    assert_eq!(plain[0].domain, "archive.org");
    assert_eq!(plain[0].expires, Some(12));
    assert!(!plain[0].include_subdomains && !plain[0].secure);
}

#[test]
fn secure_cookies_stay_off_plain_connections() {
    let cookies = parse_netscape_cookies(
        "archive.org\tFALSE\t/\tTRUE\t2145916800\ts\tv\n\
archive.org\tFALSE\t/\tFALSE\t2145916800\tp\tv\n",
    );
    let plain = Link::parse("http://archive.org/x").unwrap();
    assert_eq!(cookie_header_at(&cookies, &plain, 1), "p=v");
    assert_eq!(cookie_header_at(&cookies, &cookie_test_url("/x"), 1), "s=v; p=v");
    assert_eq!(cookie_header_at(&cookies, &cookie_test_url("/x"), 2145916800), "");
    assert!(!cookie_applies_to_url(&cookies[0], &plain, 1));
    // A raw cookie string applies to every request as it is
    let raw = CookieSource::Raw("a=b".to_string());
    assert_eq!(cookie_header_for_at(Some(&raw), &plain, 1).unwrap().as_deref(), Some("a=b"));
    let file = CookieSource::Netscape(cookies);
    assert_eq!(cookie_header_for_at(Some(&file), &plain, 1).unwrap().as_deref(), Some("p=v"));
    assert_eq!(cookie_header_for_at(None, &cookie_test_url("/x"), 1).unwrap(), None);
}

#[test]
fn unencodable_cookies_are_dropped_with_a_warning() {
    let cookies = parse_netscape_cookies(
        "archive.org\tFALSE\t/\tFALSE\t2145916800\tok\tv\n\
archive.org\tFALSE\t/\tFALSE\t2145916800\tbad\tx\x01y\n",
    );
    let (kept, warnings) = filter_encodable(cookies);
    assert_eq!(kept.len(), 1);
    assert_eq!(kept[0].name, "ok");
    assert_eq!(warnings.len(), 1);
    assert!(warnings[0].plain().contains("bad"), "{:?}", warnings[0]);
}

#[test]
fn raw_strings_that_no_header_can_hold_are_errors() {
    let err = cookie_source(Some("a=\x01"), None, &cookie_test_url("/x")).unwrap_err();
    assert!(
        matches!(&err, IaGetError::InvalidCookie(m) if m == "failed to parse header value"),
        "{err:?}"
    );
    // Cookies that were not sorted out fail in the same way when they are sent
    let bad = parse_netscape_cookies("archive.org\tFALSE\t/\tFALSE\t0\tn\tx\x01y\n");
    let source = CookieSource::Netscape(bad);
    let err = cookie_header_for_at(Some(&source), &cookie_test_url("/x"), 1).unwrap_err();
    assert!(matches!(err, IaGetError::InvalidCookie(_)), "{err:?}");
    let (source, _) = cookie_source(Some("  a=b "), None, &cookie_test_url("/x")).unwrap();
    assert!(matches!(source, Some(CookieSource::Raw(header)) if header == "a=b"));
}

#[test]
fn large_cookie_files_are_refused() {
    assert!(check_cookie_file_size("c.txt", MAX_COOKIE_FILE_BYTES).is_ok());
    let err = check_cookie_file_size("c.txt", MAX_COOKIE_FILE_BYTES + 1).unwrap_err();
    assert!(err.to_text().contains("c.txt"), "{}", err.to_text());
}

#[test]
fn no_cookies_make_no_header() {
    let url = cookie_test_url("/download/item/f.xml");
    assert!(cookie_source(None, None, &url).unwrap().0.is_none());
    assert_eq!(cookie_header_value(None, None, &url).unwrap().0, None);
    assert_eq!(
        cookie_header_value(Some("a=b"), None, &url).unwrap().0.as_deref(),
        Some("a=b")
    );
}
