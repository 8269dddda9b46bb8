//! The errors of a run and what they read.

use crate::text;
use vstd::prelude::*;

verus! {

/// The kinds of I/O failure that a run tells apart.
#[derive(Clone, Copy, Debug, PartialEq, Eq, Structural)]
pub enum IoKind {
    /// What was asked for is not there.
    NotFound,
    /// A system call was interrupted by a signal.
    Interrupted,
    /// The volume has no space left.
    StorageFull,
    /// Anything else.
    Other,
}

/// A failed I/O operation: its kind, and what the system says of it.
#[derive(Debug)]
pub struct IoFault {
    pub kind: IoKind,
    pub message: String,
}

/// A failed HTTP request, as the client reports it.
#[derive(Debug)]
pub struct RequestFault {
    /// The connection could not be made, or timed out.
    pub connection: bool,
    /// The status line, where the failure is an error status.
    pub status: Option<String>,
    pub message: String,
}

/// A text that is no URL: what the parser says of it.
#[derive(Debug)]
pub struct UrlFault {
    pub message: String,
}

/// A document that is no XML: what the parser says of it.
#[derive(Debug)]
pub struct XmlFault {
    pub message: String,
}

/// What can stop a run, or one file of it.
#[derive(Debug)]
#[allow(inconsistent_fields)]
pub enum IaGetError {
    /// Connection failures, timeouts and HTTP errors.
    Network { detail: String, source: Option<RequestFault> },
    /// A failed file operation.
    FileSystem { detail: String, source: Option<IoFault> },
    /// The argument is no archive.org URL.
    UrlFormat(String),
    /// The URL names a file that the archive's metadata does not list.
    FileNotFoundInArchive { identifier: String, path: String },
    /// No file is left to download.
    NoFilesSelected { identifier: String },
    /// The output directory argument names no directory.
    InvalidOutputDir(String),
    /// The rate limit does not read as a throughput.
    InvalidRate(String),
    /// The proxy cannot be used by the HTTP client.
    InvalidProxy(String),
    /// The volume has less space free than the downloads need.
    InsufficientDiskSpace { required: String, available: String, path: String },
    /// A checked directory does not match the metadata.
    CheckFailed { problems: usize },
    /// The directory to check does not exist.
    CheckDirectoryNotFound(String),
    /// The metadata document cannot be read.
    XmlParsing(String),
    /// The system clock gives no time: what it says instead.
    SystemTime(String),
    /// The cookies cannot be sent in a header.
    InvalidCookie(String),
    /// The server rejected the resume offset.
    RangeNotSatisfiable,
    /// The user asked to stop.
    Interrupted,
    /// Files of a batch could not be downloaded.
    BatchFailed { count: usize, total: usize, details: String },
}

impl IaGetError {
    /// What the error reads.
    pub open spec fn text(self) -> Seq<char> {
        match self {
            IaGetError::Network { detail, source } => "Network error: "@ + detail@,
            IaGetError::FileSystem { detail, source } => "File operation failed: "@ + detail@,
            IaGetError::UrlFormat(url) => "Invalid archive.org URL: "@ + url@
                + ". Expected https://archive.org/details/<identifier> or https://archive.org/download/<identifier>/<file>"@,
            IaGetError::FileNotFoundInArchive { identifier, path } => "File not found in archive: "@
                + path@ + " — item "@ + identifier@ + " does not contain it"@,
            IaGetError::NoFilesSelected { identifier } => "No files selected for download in "@
                + identifier@,
            IaGetError::InvalidOutputDir(path) => "Invalid output directory: "@ + path@
                + " — the path must name a directory"@,
            IaGetError::InvalidRate(rate) => "Invalid rate limit: "@ + rate@,
            IaGetError::InvalidProxy(proxy) => "Invalid proxy: "@ + proxy@,
            IaGetError::InsufficientDiskSpace { required, available, path } =>
            "Not enough disk space: need "@ + required@ + " for the download, only "@ + available@
                + " free in "@ + path@,
            IaGetError::CheckFailed { problems } => "Directory check found "@ + text::decimal(
                problems as nat,
            ) + " problem(s)"@,
            IaGetError::CheckDirectoryNotFound(path) => "Directory to check not found: "@ + path@,
            IaGetError::XmlParsing(detail) => "Failed to parse XML: "@ + detail@,
            IaGetError::SystemTime(detail) => "Failed to get the system time: "@ + detail@,
            IaGetError::InvalidCookie(detail) => "Invalid cookie header: "@ + detail@,
            IaGetError::RangeNotSatisfiable =>
            "Server rejected the resume offset (HTTP 416); the partial file must be re-downloaded from scratch"@,
            IaGetError::Interrupted => "Interrupted by user"@,
            IaGetError::BatchFailed { count, total, details } => text::decimal(count as nat)
                + " of "@ + text::decimal(total as nat) + " file(s) failed to download"@,
        }
    }

    /// What the error reads.
    pub fn to_text(&self) -> (r: String)
        ensures
            r@ == self.text(),
    {
        match self {
            IaGetError::Network { detail, .. } => text::concat("Network error: ", detail),
            IaGetError::FileSystem { detail, .. } => text::concat(
                "File operation failed: ",
                detail,
            ),
            IaGetError::UrlFormat(url) => {
                let mut r = text::concat("Invalid archive.org URL: ", url);
                r.append(
                    ". Expected https://archive.org/details/<identifier> or https://archive.org/download/<identifier>/<file>",
                );
                r
            },
            IaGetError::FileNotFoundInArchive { identifier, path } => {
                let mut r = text::concat("File not found in archive: ", path);
                r.append(" — item ");
                r.append(identifier);
                r.append(" does not contain it");
                r
            },
            IaGetError::NoFilesSelected { identifier } => text::concat(
                "No files selected for download in ",
                identifier,
            ),
            IaGetError::InvalidOutputDir(path) => {
                let mut r = text::concat("Invalid output directory: ", path);
                r.append(" — the path must name a directory");
                r
            },
            IaGetError::InvalidRate(rate) => text::concat("Invalid rate limit: ", rate),
            IaGetError::InvalidProxy(proxy) => text::concat("Invalid proxy: ", proxy),
            IaGetError::InsufficientDiskSpace { required, available, path } => {
                let mut r = text::concat("Not enough disk space: need ", required);
                r.append(" for the download, only ");
                r.append(available);
                r.append(" free in ");
                r.append(path);
                r
            },
            IaGetError::CheckFailed { problems } => {
                let mut r = "Directory check found ".to_owned();
                text::push_decimal(&mut r, *problems as u64);
                r.append(" problem(s)");
                r
            },
            IaGetError::CheckDirectoryNotFound(path) => text::concat(
                "Directory to check not found: ",
                path,
            ),
            IaGetError::XmlParsing(detail) => text::concat("Failed to parse XML: ", detail),
            IaGetError::SystemTime(detail) => text::concat(
                "Failed to get the system time: ",
                detail,
            ),
            IaGetError::InvalidCookie(detail) => text::concat("Invalid cookie header: ", detail),
            IaGetError::RangeNotSatisfiable =>
            "Server rejected the resume offset (HTTP 416); the partial file must be re-downloaded from scratch".to_owned(),
            IaGetError::Interrupted => "Interrupted by user".to_owned(),
            IaGetError::BatchFailed { count, total, .. } => {
                let mut r = text::decimal_text(*count as u64);
                r.append(" of ");
                text::push_decimal(&mut r, *total as u64);
                r.append(" file(s) failed to download");
                r
            },
        }
    }

    /// A network error with nothing behind it that reads `detail`.
    pub open spec fn is_network(self, detail: Seq<char>) -> bool {
        self matches IaGetError::Network { detail: d, source } && d@ == detail && source is None
    }

    /// The error for a request that failed: connection failures and error
    /// statuses say so in front of what the client reports.
    pub fn from_request(fault: RequestFault) -> (r: Self)
        ensures
            r matches IaGetError::Network { detail, source } && source == Some(fault) && detail@
                == (if fault.connection {
                "Connection failed: "@ + fault.message@
            } else if fault.status is Some {
                "HTTP error "@ + fault.status->0@ + ": "@ + fault.message@
            } else {
                fault.message@
            }),
    {
        let detail = if fault.connection {
            text::concat("Connection failed: ", &fault.message)
        } else {
            match &fault.status {
                Some(status) => {
                    let mut d = text::concat("HTTP error ", status);
                    d.append(": ");
                    d.append(&fault.message);
                    d
                },
                None => fault.message.clone(),
            }
        };
        IaGetError::Network { detail, source: Some(fault) }
    }
}

/// A failed I/O operation is a file system error. An interrupted system call
/// is one of those, and no request of the user to stop.
impl From<IoFault> for IaGetError {
    fn from(fault: IoFault) -> (r: Self) {
        let detail = fault.message.clone();
        IaGetError::FileSystem { detail, source: Some(fault) }
    }
}

impl vstd::std_specs::convert::FromSpecImpl<IoFault> for IaGetError {
    open spec fn obeys_from_spec() -> bool {
        true
    }

    open spec fn from_spec(fault: IoFault) -> Self {
        IaGetError::FileSystem { detail: fault.message, source: Some(fault) }
    }
}

impl From<UrlFault> for IaGetError {
    fn from(fault: UrlFault) -> (r: Self) {
        IaGetError::UrlFormat(fault.message)
    }
}

impl vstd::std_specs::convert::FromSpecImpl<UrlFault> for IaGetError {
    open spec fn obeys_from_spec() -> bool {
        true
    }

    open spec fn from_spec(fault: UrlFault) -> Self {
        IaGetError::UrlFormat(fault.message)
    }
}

impl From<XmlFault> for IaGetError {
    fn from(fault: XmlFault) -> (r: Self) {
        IaGetError::XmlParsing(fault.message)
    }
}

impl vstd::std_specs::convert::FromSpecImpl<XmlFault> for IaGetError {
    open spec fn obeys_from_spec() -> bool {
        true
    }

    open spec fn from_spec(fault: XmlFault) -> Self {
        IaGetError::XmlParsing(fault.message)
    }
}

/// The error for a failed I/O operation on a file, which it names: a bare
/// message could not be located in a batch of hundreds of files.
pub fn io_error_with_path(path: &str, err: IoFault) -> (r: IaGetError)
    ensures
        r matches IaGetError::FileSystem { detail, source } && source == Some(err) && detail@
            == path@ + ": "@ + err.message@,
{
    let mut detail = text::concat(path, ": ");
    detail.append(&err.message);
    IaGetError::FileSystem { detail, source: Some(err) }
}

// ---------------------------------------------------------------------------
// What errors promise
// ---------------------------------------------------------------------------

/// Whether a text holds another.
pub open spec fn mentions(text: Seq<char>, piece: Seq<char>) -> bool {
    exists|before: Seq<char>, after: Seq<char>|
        text == #[trigger] (before + piece + after)
}

proof fn lemma_mentions(before: Seq<char>, piece: Seq<char>, after: Seq<char>)
    ensures
        mentions(before + piece + after, piece),
        mentions(before + piece, piece),
{
    assert(before + piece =~= before + piece + Seq::<char>::empty());
}

/// An error names what it is about: the file, the address, the setting, the
/// numbers or the reason that came with it.
pub proof fn errors_name_their_cause(e: IaGetError)
    ensures
        match e {
            IaGetError::Network { detail, source } => mentions(e.text(), detail@),
            IaGetError::FileSystem { detail, source } => mentions(e.text(), detail@),
            IaGetError::UrlFormat(url) => mentions(e.text(), url@),
            IaGetError::FileNotFoundInArchive { identifier, path } => mentions(
                e.text(),
                identifier@,
            ) && mentions(e.text(), path@),
            IaGetError::NoFilesSelected { identifier } => mentions(e.text(), identifier@),
            IaGetError::InvalidOutputDir(path) => mentions(e.text(), path@),
            IaGetError::InvalidRate(rate) => mentions(e.text(), rate@),
            IaGetError::InvalidProxy(proxy) => mentions(e.text(), proxy@),
            IaGetError::InsufficientDiskSpace { required, available, path } => mentions(
                e.text(),
                required@,
            ) && mentions(e.text(), available@) && mentions(e.text(), path@),
            IaGetError::CheckFailed { problems } => mentions(
                e.text(),
                text::decimal(problems as nat),
            ),
            IaGetError::CheckDirectoryNotFound(path) => mentions(e.text(), path@),
            IaGetError::XmlParsing(detail) => mentions(e.text(), detail@),
            IaGetError::SystemTime(detail) => mentions(e.text(), detail@),
            IaGetError::InvalidCookie(detail) => mentions(e.text(), detail@),
            IaGetError::RangeNotSatisfiable => mentions(e.text(), "(HTTP 416)"@),
            IaGetError::Interrupted => mentions(e.text(), "by user"@),
            IaGetError::BatchFailed { count, total, details } => mentions(
                e.text(),
                text::decimal(count as nat) + " of "@ + text::decimal(total as nat),
            ),
        },
{
    let none: Seq<char> = Seq::empty();
    match e {
        IaGetError::Network { detail, source } => {
            lemma_mentions("Network error: "@, detail@, none);
        },
        IaGetError::FileSystem { detail, source } => {
            lemma_mentions("File operation failed: "@, detail@, none);
        },
        IaGetError::UrlFormat(url) => {
            lemma_mentions(
                "Invalid archive.org URL: "@,
                url@,
                ". Expected https://archive.org/details/<identifier> or https://archive.org/download/<identifier>/<file>"@,
            );
        },
        IaGetError::FileNotFoundInArchive { identifier, path } => {
            let before = "File not found in archive: "@;
            let rest = " — item "@ + identifier@ + " does not contain it"@;
            lemma_mentions(before, path@, rest);
            assert(e.text() =~= before + path@ + rest);
            lemma_mentions(
                before + path@ + " — item "@,
                identifier@,
                " does not contain it"@,
            );
        },
        IaGetError::NoFilesSelected { identifier } => {
            lemma_mentions("No files selected for download in "@, identifier@, none);
        },
        IaGetError::InvalidOutputDir(path) => {
            lemma_mentions(
                "Invalid output directory: "@,
                path@,
                " — the path must name a directory"@,
            );
        },
        IaGetError::InvalidRate(rate) => {
            lemma_mentions("Invalid rate limit: "@, rate@, none);
        },
        IaGetError::InvalidProxy(proxy) => {
            lemma_mentions("Invalid proxy: "@, proxy@, none);
        },
        IaGetError::InsufficientDiskSpace { required, available, path } => {
            let first = "Not enough disk space: need "@;
            let second = " for the download, only "@;
            let third = " free in "@;
            lemma_mentions(first, required@, second + available@ + third + path@);
            assert(e.text() =~= first + required@ + (second + available@ + third + path@));
            lemma_mentions(first + required@ + second, available@, third + path@);
            assert(e.text() =~= first + required@ + second + available@ + (third + path@));
            lemma_mentions(first + required@ + second + available@ + third, path@, none);
        },
        IaGetError::CheckFailed { problems } => {
            lemma_mentions(
                "Directory check found "@,
                text::decimal(problems as nat),
                " problem(s)"@,
            );
        },
        IaGetError::CheckDirectoryNotFound(path) => {
            lemma_mentions("Directory to check not found: "@, path@, none);
        },
        IaGetError::XmlParsing(detail) => {
            lemma_mentions("Failed to parse XML: "@, detail@, none);
        },
        IaGetError::SystemTime(detail) => {
            lemma_mentions("Failed to get the system time: "@, detail@, none);
        },
        IaGetError::InvalidCookie(detail) => {
            lemma_mentions("Invalid cookie header: "@, detail@, none);
        },
        IaGetError::RangeNotSatisfiable => {
            reveal_strlit(
                "Server rejected the resume offset (HTTP 416); the partial file must be re-downloaded from scratch",
            );
            reveal_strlit("Server rejected the resume offset ");
            reveal_strlit("(HTTP 416)");
            reveal_strlit("; the partial file must be re-downloaded from scratch");
            lemma_mentions(
                "Server rejected the resume offset "@,
                "(HTTP 416)"@,
                "; the partial file must be re-downloaded from scratch"@,
            );
            assert(e.text() =~= "Server rejected the resume offset "@ + "(HTTP 416)"@
                + "; the partial file must be re-downloaded from scratch"@);
        },
        IaGetError::Interrupted => {
            reveal_strlit("Interrupted by user");
            reveal_strlit("Interrupted ");
            reveal_strlit("by user");
            lemma_mentions("Interrupted "@, "by user"@, none);
            assert(e.text() =~= "Interrupted "@ + "by user"@);
        },
        IaGetError::BatchFailed { count, total, details } => {
            let numbers = text::decimal(count as nat) + " of "@ + text::decimal(total as nat);
            lemma_mentions(none, numbers, " file(s) failed to download"@);
            assert(e.text() =~= none + numbers + " file(s) failed to download"@);
        },
    }
}

/// A failed I/O operation, an interrupted system call too, is a file system
/// error that keeps the system's words; it never passes for the user's
/// request to stop.
pub proof fn faults_keep_their_words(io: IoFault, url: UrlFault, xml: XmlFault)
    ensures
        vstd::std_specs::convert::FromSpec::from_spec(io) matches IaGetError::FileSystem {
            detail,
            source,
        } && detail@ == io.message@ && source == Some(io),
        vstd::std_specs::convert::FromSpec::from_spec(url) matches IaGetError::UrlFormat(said)
            && said@ == url.message@,
        vstd::std_specs::convert::FromSpec::from_spec(xml) matches IaGetError::XmlParsing(said)
            && said@ == xml.message@,
{
}

/// A bare network error has its words and nothing behind it.
pub proof fn bare_network_errors_have_no_source(e: IaGetError, words: Seq<char>)
    ensures
        e.is_network(words) <==> (e is Network && e->Network_detail@ == words && e->Network_source
            is None),
{
}

} // verus!
