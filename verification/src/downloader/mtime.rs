//! Modification times: from the server's `Last-Modified` header, from the
//! metadata, and onto a file.

use crate::header;
use crate::header::read_header;
use vstd::prelude::*;

verus! {

/// The time that `httpdate::parse_http_date` reads a text as, in Unix
/// seconds; none where it is no date.
pub uninterp spec fn http_date(text: Seq<char>) -> Option<u64>;

/// The first second of the year 10000.
pub const YEAR_10000: u64 = 253_402_300_800;

/// Reading an HTTP date (`httpdate::parse_http_date`): the result is the one
/// named, and no date lies behind the year 9999.
#[verifier::external_body]
pub(crate) fn parse_http_date(text: &str) -> (r: Option<u64>)
    ensures
        r == http_date(text@),
        r matches Some(secs) ==> secs < YEAR_10000,
{
    let date = httpdate::parse_http_date(text).ok()?;
    date.duration_since(std::time::UNIX_EPOCH).ok().map(|since| since.as_secs())
}

/// The time that a `Last-Modified` header gives.
pub open spec fn last_modified(raw: Option<Seq<u8>>) -> Option<u64> {
    match header::header_reads(raw) {
        Some(text) => http_date(text),
        None => None,
    }
}

/// The time that a response's `Last-Modified` header gives, in Unix seconds.
pub fn parse_last_modified(raw: &Option<Vec<u8>>) -> (r: Option<u64>)
    ensures
        r == last_modified(header::raw_view(*raw)),
{
    match read_header(raw) {
        Some(text) => parse_http_date(&text),
        None => None,
    }
}

/// The time that the metadata gives, where the system can represent it.
pub open spec fn representable(mtime: Option<u64>) -> Option<u64> {
    match mtime {
        Some(secs) => if secs <= i64::MAX {
            Some(secs)
        } else {
            None
        },
        None => None,
    }
}

/// The time that the metadata gives; none where it is absent or out of
/// range.
pub fn mtime_from_xml(mtime: Option<u64>) -> (r: Option<u64>)
    ensures
        r == representable(mtime),
{
    match mtime {
        Some(secs) => if secs <= i64::MAX as u64 {
            Some(secs)
        } else {
            None
        },
        None => None,
    }
}

/// The time that a downloaded file gets: the server's, else the metadata's,
/// else none.
pub open spec fn installed_mtime(server: Option<u64>, xml: Option<u64>) -> Option<u64> {
    if server is Some {
        server
    } else {
        representable(xml)
    }
}

/// The time that a downloaded file gets.
pub fn mtime_to_install(server: Option<u64>, xml: Option<u64>) -> (r: Option<u64>)
    ensures
        r == installed_mtime(server, xml),
{
    match server {
        Some(secs) => Some(secs),
        None => mtime_from_xml(xml),
    }
}

/// What to set a file's time to. `target` is the wanted time in Unix
/// seconds, none for one before the epoch, which has no such
/// representation; `current` is the file's. Nothing is set where the two
/// agree, or where the wanted time is out of range.
pub fn sync_file_mtime(target: Option<u64>, current: Option<u64>) -> (r: Option<i64>)
    ensures
        match r {
            Some(secs) => target == Some(secs as u64) && secs >= 0 && current != target,
            None => target is None || current == target || target->0 > i64::MAX,
        },
{
    match target {
        None => None,
        Some(secs) => {
            if let Some(now) = current {
                if now == secs {
                    return None;
                }
            }
            if secs > i64::MAX as u64 {
                return None;
            }
            Some(secs as i64)
        },
    }
}

/// The server's time wins over the metadata's, whatever that is; without
/// one, the metadata's is taken where the system can represent it.
pub proof fn server_times_win(server: u64, xml: Option<u64>, secs: u64)
    ensures
        installed_mtime(Some(server), xml) == Some(server),
        secs < 0x8000_0000_0000_0000 ==> installed_mtime(None, Some(secs)) == Some(secs)
            && representable(Some(secs)) == Some(secs),
        secs >= 0x8000_0000_0000_0000 ==> installed_mtime(None, Some(secs)) is None
            && representable(Some(secs)) is None,
        installed_mtime(None, None) is None,
        representable(None) is None,
{
}

/// A `Last-Modified` header of visible characters gives the date that it
/// reads as; any other header, or none, gives nothing.
pub proof fn readable_dates_are_taken(raw: Option<Seq<u8>>, text: Seq<char>)
    ensures
        last_modified(None) is None,
        (raw matches Some(bytes) && bytes.len() == text.len() && forall|i: int|
            0 <= i < bytes.len() ==> (#[trigger] bytes[i]) as char == text[i] && (bytes[i] == 9 || (
            32 <= bytes[i] <= 126))) ==> last_modified(raw) == http_date(text),
        (raw matches Some(bytes) && exists|i: int|
            0 <= i < bytes.len() && (#[trigger] bytes[i]) != 9 && !(32 <= bytes[i] <= 126))
            ==> last_modified(raw) is None,
{
    header::visible_headers_are_read(raw, text);
    if let Some(read) = header::header_reads(raw) {
        header::visible_headers_are_read(raw, read);
    }
}

} // verus!
