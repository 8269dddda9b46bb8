//! What the errors read.

use ia_get::error::{
    io_error_with_path, IaGetError, IoFault, IoKind, RequestFault, UrlFault, XmlFault,
};

#[test]
fn system_time_error_displays_its_own_kind() {
    let past = std::time::UNIX_EPOCH - std::time::Duration::from_secs(1);
    let err = IaGetError::SystemTime(
        past.duration_since(std::time::UNIX_EPOCH)
            .expect_err("a past time has no duration_since")
            .to_string(),
    );
    assert!(err.to_text().contains("system time"), "got: {}", err.to_text());
    assert!(!err.to_text().contains("File operation"));
}

#[test]
fn os_interrupted_maps_to_filesystem_error() {
    let io_err = std::io::Error::from(std::io::ErrorKind::Interrupted);
    let err =
        IaGetError::from(IoFault { kind: IoKind::Interrupted, message: io_err.to_string() });
    assert!(
        matches!(err, IaGetError::FileSystem { .. }),
        "an OS-level Interrupted must stay a file system error, got {err:?}"
    );
}

#[test]
fn every_error_reads_as_its_kind() {
    let cases = [
        (
            IaGetError::Network { detail: "down".to_string(), source: None },
            "Network error: down",
        ),
        (
            IaGetError::FileSystem { detail: "full".to_string(), source: None },
            "File operation failed: full",
        ),
        (
            IaGetError::UrlFormat("x".to_string()),
            "Invalid archive.org URL: x. Expected https://archive.org/details/<identifier> or https://archive.org/download/<identifier>/<file>",
        ),
        (
            IaGetError::FileNotFoundInArchive { identifier: "i".to_string(), path: "p".to_string() },
            "File not found in archive: p — item i does not contain it",
        ),
        (
            IaGetError::NoFilesSelected { identifier: "i".to_string() },
            "No files selected for download in i",
        ),
        (
            IaGetError::InvalidOutputDir("/".to_string()),
            "Invalid output directory: / — the path must name a directory",
        ),
        (IaGetError::InvalidRate("x".to_string()), "Invalid rate limit: x"),
        (IaGetError::InvalidProxy("x".to_string()), "Invalid proxy: x"),
        (
            IaGetError::InsufficientDiskSpace {
                required: "2B".to_string(),
                available: "1B".to_string(),
                path: ".".to_string(),
            },
            "Not enough disk space: need 2B for the download, only 1B free in .",
        ),
        (IaGetError::CheckFailed { problems: 3 }, "Directory check found 3 problem(s)"),
        (
            IaGetError::CheckDirectoryNotFound("d".to_string()),
            "Directory to check not found: d",
        ),
        (IaGetError::XmlParsing("x".to_string()), "Failed to parse XML: x"),
        (IaGetError::SystemTime("x".to_string()), "Failed to get the system time: x"),
        (IaGetError::InvalidCookie("x".to_string()), "Invalid cookie header: x"),
        (
            IaGetError::RangeNotSatisfiable,
            "Server rejected the resume offset (HTTP 416); the partial file must be re-downloaded from scratch",
        ),
        (IaGetError::Interrupted, "Interrupted by user"),
        (
            IaGetError::BatchFailed { count: 1, total: 2, details: "a: b".to_string() },
            "1 of 2 file(s) failed to download",
        ),
    ];
    for (error, text) in &cases {
        assert_eq!(error.to_text(), *text);
    }
}

#[test]
fn faults_keep_what_they_say() {
    let err = IaGetError::from_request(RequestFault {
        connection: true,
        status: None,
        message: "refused".to_string(),
    });
    assert!(matches!(&err, IaGetError::Network { source: Some(f), .. } if f.message == "refused"));
    let with_status = IaGetError::from_request(RequestFault {
        connection: false,
        status: Some("404 Not Found".to_string()),
        message: "status".to_string(),
    });
    assert!(with_status.to_text().contains("404 Not Found"), "{}", with_status.to_text());

    let err = io_error_with_path(
        "a/b",
        IoFault { kind: IoKind::NotFound, message: "gone".to_string() },
    );
    assert_eq!(err.to_text(), "File operation failed: a/b: gone");
    assert!(matches!(
        err,
        IaGetError::FileSystem { source: Some(f), .. } if f.kind == IoKind::NotFound
    ));
    let url = IaGetError::from(UrlFault { message: "bad".to_string() });
    assert!(matches!(&url, IaGetError::UrlFormat(m) if m == "bad"), "{url:?}");
    let xml = IaGetError::from(XmlFault { message: "bad".to_string() });
    assert!(matches!(&xml, IaGetError::XmlParsing(m) if m == "bad"), "{xml:?}");
}
