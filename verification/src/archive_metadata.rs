//! An archive's metadata: the URLs that name an item or a file of it, and
//! the item's `_files.xml` document.

use crate::display;
use crate::error::{IaGetError, XmlFault};
use crate::link;
use crate::link::Link;
use crate::percent;
use crate::percent::percent_decode;
use crate::status;
use crate::styled::{Line, Style};
use crate::text;
use crate::text::Trim;
use vstd::prelude::*;

pub use crate::percent::encode_download_path;

verus! {

// ---------------------------------------------------------------------------
// URLs
// ---------------------------------------------------------------------------

/// What an archive.org URL points at: a whole item, or one file of it.
#[derive(Debug)]
pub struct ArchiveTarget {
    /// The item's identifier.
    pub identifier: String,
    /// The file's path inside the item, where the URL names one.
    pub file_path: Option<String>,
}

impl View for ArchiveTarget {
    type V = (Seq<char>, Option<Seq<char>>);

    open spec fn view(&self) -> (Seq<char>, Option<Seq<char>>) {
        (
            self.identifier@,
            match self.file_path {
                Some(path) => Some(path@),
                None => None,
            },
        )
    }
}

/// The characters of item identifiers.
pub open spec fn is_identifier_char(c: char) -> bool {
    text::is_alphanumeric(c) || c == '_' || c == '-' || c == '.' || c == '@'
}

/// An item identifier.
pub open spec fn is_identifier(s: Seq<char>) -> bool {
    s.len() > 0 && forall|i: int| 0 <= i < s.len() ==> is_identifier_char(#[trigger] s[i])
}

/// The address of an item's details page, up to its identifier.
pub open spec fn details_prefix() -> Seq<char> {
    "https://archive.org/details/"@
}

/// The address of an item's files, up to its identifier.
pub open spec fn download_prefix() -> Seq<char> {
    "https://archive.org/download/"@
}

/// What follows a prefix.
pub open spec fn after(s: Seq<char>, prefix: Seq<char>) -> Option<Seq<char>> {
    if prefix.is_prefix_of(s) {
        Some(s.skip(prefix.len() as int))
    } else {
        None
    }
}

/// An identifier, and the raw path behind it where there is one: the path
/// stands behind a separator and holds no line break. A lone separator names
/// no path.
pub open spec fn item_and_path(tail: Seq<char>) -> Option<(Seq<char>, Option<Seq<char>>)> {
    let end = text::position(tail, '/');
    let identifier = tail.take(end);
    if !is_identifier(identifier) {
        None
    } else if end >= tail.len() {
        Some((identifier, None))
    } else {
        let path = tail.skip(end + 1);
        if path.contains('\n') {
            None
        } else if path.len() == 0 {
            Some((identifier, None))
        } else {
            Some((identifier, Some(path)))
        }
    }
}

/// The item and raw path of a details or download URL.
pub open spec fn url_parts(url: Seq<char>) -> Option<(Seq<char>, Option<Seq<char>>)> {
    match after(url, details_prefix()) {
        Some(tail) => item_and_path(tail),
        None => match after(url, download_prefix()) {
            Some(tail) => item_and_path(tail),
            None => None,
        },
    }
}

/// What a URL points at: its path, where it has one, percent-decoded and
/// without separators around it. A path that decodes to no text, or to
/// separators alone, names nothing.
pub open spec fn target_of(url: Seq<char>) -> Option<(Seq<char>, Option<Seq<char>>)> {
    match url_parts(url) {
        Some((identifier, Some(raw))) => match percent::decoded(raw) {
            Some(path) => {
                let name = text::trim(path, Trim::Slash);
                if name.len() == 0 {
                    None
                } else {
                    Some((identifier, Some(name)))
                }
            },
            None => None,
        },
        other => other,
    }
}

/// The details URL of a whole item.
pub open spec fn is_details_url(url: Seq<char>) -> bool {
    match after(url, details_prefix()) {
        Some(tail) => item_and_path(tail) matches Some((_, None)),
        None => false,
    }
}

/// A details URL of a whole item points at that item.
pub proof fn details_urls_point_at_the_item(url: Seq<char>)
    requires
        is_details_url(url),
    ensures
        target_of(url) matches Some((_, None)),
{
}

/// The URL of an encoded file name points at that file: reading it gives the
/// item and the name back.
pub proof fn file_url_points_at_the_file(identifier: Seq<char>, name: Seq<char>)
    requires
        is_identifier(identifier),
        percent::is_plain_name(name),
        name.last() != '/',
    ensures
        target_of(download_prefix() + identifier + "/"@ + percent::encoded_path(name)) == Some(
            (identifier, Some(name)),
        ),
{
    let path = percent::encoded_path(name);
    let url = download_prefix() + identifier + "/"@ + path;
    percent::lemma_plain_name_path(name);
    percent::encoded_path_stays_below(name);
    percent::decoding_a_path_gives_the_name(name);
    reveal_strlit("/");
    let tail = identifier + "/"@ + path;
    lemma_download_is_no_details(tail);
    assert(url =~= download_prefix() + tail);
    assert(url.skip(download_prefix().len() as int) =~= tail);
    let end = identifier.len() as int;
    assert(tail[end] == '/');
    assert forall|i: int| 0 <= i < end implies tail[i] != '/' by {
        assert(is_identifier_char(identifier[i]));
        assert(tail[i] == identifier[i]);
    }
    text::lemma_position(tail, '/');
    if text::position(tail, '/') < end {
        assert(tail[text::position(tail, '/')] == '/');
    }
    if text::position(tail, '/') > end {
        assert(tail[end] != '/');
    }
    assert(tail.take(end) =~= identifier);
    assert(tail.skip(end + 1) =~= path);
    assert(!path.contains('\n')) by {
        if path.contains('\n') {
            let i = choose|i: int| 0 <= i < path.len() && path[i] == '\n';
            assert(percent::is_encoded_char(path[i]));
        }
    }
    assert(text::trim_front(name, Trim::Slash) == name);
    assert(text::trim_back(name, Trim::Slash) == name);
}

/// No download URL is a details URL.
proof fn lemma_download_is_no_details(tail: Seq<char>)
    ensures
        after(download_prefix() + tail, details_prefix()) is None,
        after(download_prefix() + tail, download_prefix()) == Some(tail),
{
    reveal_strlit("https://archive.org/details/");
    reveal_strlit("https://archive.org/download/");
    let url = download_prefix() + tail;
    assert(url.subrange(0, download_prefix().len() as int) =~= download_prefix());
    assert(url.skip(download_prefix().len() as int) =~= tail);
    assert(url[21] == 'o');
    assert(details_prefix()[21] == 'e');
    if details_prefix().is_prefix_of(url) {
        assert(url.subrange(0, details_prefix().len() as int)[21] == url[21]);
    }
}

fn is_identifier_text(chars: &Vec<char>, end: usize) -> (r: bool)
    requires
        end <= chars.len(),
    ensures
        r == is_identifier(chars@.take(end as int)),
{
    let mut i: usize = 0;
    while i < end
        invariant
            i <= end <= chars.len(),
            forall|k: int| 0 <= k < i ==> is_identifier_char(#[trigger] chars@[k]),
        decreases end - i,
    {
        let c = chars[i];
        if !(text::is_ascii_alphanumeric(c) || c == '_' || c == '-' || c == '.' || c == '@') {
            assert(chars@.take(end as int)[i as int] == c);
            return false;
        }
        i += 1;
    }
    end > 0
}

/// Splits what follows a prefix into the identifier and the raw path.
fn split_item(tail: &Vec<char>) -> (r: Option<(String, Option<String>)>)
    ensures
        match r {
            Some((identifier, Some(path))) => item_and_path(tail@) == Some(
                (identifier@, Some(path@)),
            ),
            Some((identifier, None)) => item_and_path(tail@) == Some(
                (identifier@, None::<Seq<char>>),
            ),
            None => item_and_path(tail@) is None,
        },
{
    let end: usize = text::find(tail, '/');
    assert(tail@.subrange(0, end as int) =~= tail@.take(end as int));
    if !is_identifier_text(tail, end) {
        return None;
    }
    let identifier = text::text_between(tail, 0, end);
    if end == tail.len() {
        return Some((identifier, None));
    }
    let path = text::chars_between(tail, end + 1, tail.len());
    assert(tail@.subrange(end + 1, tail@.len() as int) =~= tail@.skip(end + 1));
    if text::has_char(&path, '\n') {
        return None;
    }
    if path.len() == 0 {
        return Some((identifier, None));
    }
    Some((identifier, Some(text::text_of(&path))))
}

/// What follows a prefix of a row.
fn strip(chars: &Vec<char>, prefix: &str) -> (r: Option<Vec<char>>)
    ensures
        match r {
            Some(tail) => after(chars@, prefix@) == Some(tail@),
            None => after(chars@, prefix@) is None,
        },
{
    if text::starts_with(chars, prefix) {
        let n: usize = text::chars_of(prefix).len();
        assert(chars@.subrange(n as int, chars@.len() as int) =~= chars@.skip(n as int));
        Some(text::chars_between(chars, n, chars.len()))
    } else {
        None
    }
}

/// Parses a details or download URL into what it points at.
pub fn parse_archive_url(url: &str) -> (r: Result<ArchiveTarget, IaGetError>)
    ensures
        match r {
            Ok(target) => target_of(url@) == Some(target@),
            Err(e) => target_of(url@) is None && (e matches IaGetError::UrlFormat(text) && text@
                == url@),
        },
{
    let chars = text::chars_of(url);
    let tail = match strip(&chars, "https://archive.org/details/") {
        Some(tail) => Some(tail),
        None => strip(&chars, "https://archive.org/download/"),
    };
    let parts = match tail {
        Some(tail) => split_item(&tail),
        None => None,
    };
    match parts {
        None => Err(IaGetError::UrlFormat(url.to_owned())),
        Some((identifier, None)) => Ok(ArchiveTarget { identifier, file_path: None }),
        Some((identifier, Some(raw))) => {
            match percent_decode(&raw) {
                None => Err(IaGetError::UrlFormat(url.to_owned())),
                Some(path) => {
                    let name = text::trim_both(&text::chars_of(&path), Trim::Slash);
                    if name.len() == 0 {
                        Err(IaGetError::UrlFormat(url.to_owned()))
                    } else {
                        Ok(ArchiveTarget { identifier, file_path: Some(text::text_of(&name)) })
                    }
                },
            }
        },
    }
}

/// Accepts the details URL of a whole item, and nothing else.
pub fn validate_archive_url(url: &str) -> (r: Result<(), IaGetError>)
    ensures
        match r {
            Ok(_) => is_details_url(url@),
            Err(e) => !is_details_url(url@) && (e matches IaGetError::UrlFormat(text) && text@
                == url@),
        },
{
    match strip(&text::chars_of(url), "https://archive.org/details/") {
        Some(tail) => match split_item(&tail) {
            Some((_, None)) => Ok(()),
            _ => Err(IaGetError::UrlFormat(url.to_owned())),
        },
        None => Err(IaGetError::UrlFormat(url.to_owned())),
    }
}

/// The address of an item's files list.
pub open spec fn files_list_address(identifier: Seq<char>) -> Seq<char> {
    download_prefix() + identifier + "/"@ + identifier + "_files.xml"@
}

/// The URL of an item's files list.
pub fn get_xml_url(identifier: &str) -> (r: Result<Link, IaGetError>)
    ensures
        match r {
            Ok(url) => link::parsed_url(files_list_address(identifier@)) == Ok::<
                (Seq<char>, Seq<char>, Option<Seq<char>>, Seq<char>),
                Seq<char>,
            >(url@),
            Err(e) => link::parsed_url(files_list_address(identifier@)) matches Err(message) && (
            e matches IaGetError::UrlFormat(text) && text@ == message),
        },
        is_identifier(identifier@) && !percent::is_dot_segment(identifier@) ==> r is Ok
            && r->Ok_0.href@ == files_list_address(identifier@),
{
    let mut address = text::concat("https://archive.org/download/", identifier);
    address.append("/");
    address.append(identifier);
    address.append("_files.xml");
    proof {
        if is_identifier(identifier@) && !percent::is_dot_segment(identifier@) {
            lemma_files_list_address_is_settled(identifier@);
        }
    }
    match Link::parse(&address) {
        Ok(url) => Ok(url),
        Err(fault) => Err(IaGetError::from(fault)),
    }
}

/// The path of an item's files list below the host.
pub open spec fn files_list_path(identifier: Seq<char>) -> Seq<char> {
    "download/"@ + identifier + "/"@ + identifier + "_files.xml"@
}

/// A segment of identifier characters that is no dot segment does not stand
/// for one.
proof fn lemma_identifier_segment(segment: Seq<char>)
    requires
        is_identifier(segment),
        !percent::is_dot_segment(segment),
    ensures
        !link::stands_for_dots(segment),
{
    percent::lemma_decode_without_escapes(segment);
}

/// The address of an item's files list parses to itself, unless the
/// identifier is a dot segment.
pub proof fn lemma_files_list_address_is_settled(identifier: Seq<char>)
    requires
        is_identifier(identifier),
        !percent::is_dot_segment(identifier),
    ensures
        link::is_settled_path(files_list_path(identifier)),
        files_list_address(identifier) == "https://archive.org/"@ + files_list_path(identifier),
        link::is_settled_url(files_list_address(identifier)),
{
    reveal_strlit("https://archive.org/download/");
    reveal_strlit("https://archive.org/");
    reveal_strlit("download/");
    reveal_strlit("download");
    reveal_strlit("/");
    reveal_strlit("_files.xml");
    reveal_strlit(".");
    reveal_strlit("..");
    let path = files_list_path(identifier);
    assert(files_list_address(identifier) =~= "https://archive.org/"@ + path);
    assert forall|i: int| 0 <= i < path.len() implies percent::is_encoded_char(#[trigger] path[i])
        || path[i] == '@' by {
        let n = identifier.len();
        if 9 <= i < 9 + n {
            assert(is_identifier_char(identifier[i - 9]));
        } else if 10 + n <= i < 10 + 2 * n {
            assert(is_identifier_char(identifier[i - 10 - n]));
        }
    }
    let last = identifier + "_files.xml"@;
    assert(is_identifier("download"@));
    assert(is_identifier(last)) by {
        assert forall|i: int| 0 <= i < last.len() implies is_identifier_char(#[trigger] last[i]) by {
            if i < identifier.len() {
                assert(is_identifier_char(identifier[i]));
            }
        }
    }
    lemma_no_separator(identifier);
    lemma_no_separator("download"@);
    lemma_no_separator(last);
    let first = "download"@;
    text::lemma_split_whole(first, '/');
    text::lemma_split_append(first, identifier, '/');
    text::lemma_split_append(first + seq!['/'] + identifier, last, '/');
    assert(path =~= first + seq!['/'] + identifier + seq!['/'] + last);
    let pieces = text::split(path, '/');
    assert(pieces =~= seq![first, identifier, last]);
    lemma_identifier_segment(first);
    lemma_identifier_segment(identifier);
    lemma_identifier_segment(last);
    assert forall|i: int| 0 <= i < pieces.len() implies !link::stands_for_dots(
        #[trigger] pieces[i],
    ) by {}
    assert(link::is_settled_path(path));
}

proof fn lemma_no_separator(identifier: Seq<char>)
    requires
        is_identifier(identifier),
    ensures
        !identifier.contains('/'),
{
    if identifier.contains('/') {
        let i = choose|i: int| 0 <= i < identifier.len() && identifier[i] == '/';
        assert(is_identifier_char(identifier[i]));
    }
}

/// The last segment of a URL's path: the name of the files list in its URL.
pub fn xml_file_name_of(url: &Link) -> (r: String)
    ensures
        r@ == text::split(url.path@, '/').last(),
{
    let parts = text::split_chars(&text::chars_of(&url.path), '/');
    proof {
        text::lemma_split_pieces(url.path@, '/');
    }
    let last: usize = parts.len() - 1;
    assert(parts@[last as int]@ == text::rows(parts@)[last as int]);
    text::text_of(&parts[last])
}

// ---------------------------------------------------------------------------
// The files list
// ---------------------------------------------------------------------------

/// The files of an item.
#[derive(Debug)]
pub struct XmlFiles {
    pub files: Vec<XmlFile>,
}

/// One file of an item, as its metadata lists it. Everything but the name
/// may be missing.
#[derive(Debug)]
pub struct XmlFile {
    pub name: String,
    pub source: Option<String>,
    pub mtime: Option<u64>,
    pub size: Option<u64>,
    pub format: Option<String>,
    pub rotation: Option<u32>,
    pub md5: Option<String>,
    pub crc32: Option<String>,
    pub sha1: Option<String>,
    pub btih: Option<String>,
    pub summation: Option<String>,
    pub original: Option<String>,
}

impl Default for XmlFile {
    /// A nameless file of which nothing is known.
    fn default() -> (r: Self)
        ensures
            r.name@.len() == 0,
            r.source is None,
            r.mtime is None,
            r.size is None,
            r.format is None,
            r.rotation is None,
            r.md5 is None,
            r.crc32 is None,
            r.sha1 is None,
            r.btih is None,
            r.summation is None,
            r.original is None,
    {
        XmlFile {
            name: String::new(),
            source: None,
            mtime: None,
            size: None,
            format: None,
            rotation: None,
            md5: None,
            crc32: None,
            sha1: None,
            btih: None,
            summation: None,
            original: None,
        }
    }
}

/// What a metadata request brought.
#[derive(Debug)]
pub struct XmlMetadata {
    /// The files of the item.
    pub files: XmlFiles,
    /// The URL that the metadata came from, which file URLs are resolved in.
    pub base_url: Link,
    /// The document itself.
    pub content: String,
    /// When the server says the document last changed, in Unix seconds.
    pub last_modified: Option<u64>,
}

/// The line number that a parser message names: `Reader: line:column ...`.
pub open spec fn error_line(message: Seq<char>) -> Option<nat> {
    match after(message, "Reader: "@) {
        Some(rest) => {
            let position = rest.take(text::position(rest, ' '));
            let line = position.take(text::position(position, ':'));
            if text::position(rest, ' ') < rest.len() && text::position(position, ':')
                < position.len() {
                match text::unsigned(line) {
                    Some(n) => if 1 <= n <= usize::MAX {
                        Some(n)
                    } else {
                        None
                    },
                    None => None,
                }
            } else {
                None
            }
        },
        None => None,
    }
}

/// The 1-based line number that a parser message names, where it names one.
pub fn parse_error_line(message: &str) -> (r: Option<usize>)
    ensures
        match r {
            Some(n) => error_line(message@) == Some(n as nat),
            None => error_line(message@) is None,
        },
{
    let rest = match strip(&text::chars_of(message), "Reader: ") {
        Some(rest) => rest,
        None => {
            return None;
        },
    };
    let space: usize = text::find(&rest, ' ');
    if space == rest.len() {
        return None;
    }
    let position = text::chars_between(&rest, 0, space);
    assert(rest@.subrange(0, space as int) =~= rest@.take(space as int));
    let colon: usize = text::find(&position, ':');
    if colon == position.len() {
        return None;
    }
    let line = text::chars_between(&position, 0, colon);
    assert(position@.subrange(0, colon as int) =~= position@.take(colon as int));
    match text::parse_u64(&line) {
        Some(n) => if n >= 1 && n <= usize::MAX as u64 {
            Some(n as usize)
        } else {
            None
        },
        None => None,
    }
}

/// The longest part of a line that is shown, in characters.
pub const XML_DEBUG_TRUNCATE_LEN: usize = 1000;

/// How many lines a document has: a line break at its end starts none.
pub open spec fn line_count(document: Seq<char>) -> nat {
    let pieces = text::split(document, '\n');
    if pieces.last().len() == 0 {
        (pieces.len() - 1) as nat
    } else {
        pieces.len()
    }
}

/// What is shown of a line of a document: without white space at its end,
/// and cut off where it is too long.
pub open spec fn shown_line(document: Seq<char>, number: nat) -> Seq<char> {
    let pieces = text::split(document, '\n');
    let line = if 1 <= number <= pieces.len() {
        text::trim_back(pieces[number - 1], Trim::Space)
    } else {
        Seq::empty()
    };
    if line.len() > XML_DEBUG_TRUNCATE_LEN {
        line.take(XML_DEBUG_TRUNCATE_LEN as int)
    } else {
        line
    }
}

/// One line of a preview: marked where it is the one that matters, numbered,
/// and with what is shown of it.
pub open spec fn preview_line(document: Seq<char>, number: nat, anchor: nat) -> Seq<char> {
    (if number == anchor {
        "»"@
    } else {
        " "@
    }) + text::pad_left(text::decimal(number), 6) + "  "@ + shown_line(document, number) + "\n"@
}

/// The preview of `count` lines from `first` on.
pub open spec fn preview(document: Seq<char>, first: nat, count: nat, anchor: nat) -> Seq<char>
    decreases count,
{
    if count == 0 {
        Seq::empty()
    } else {
        preview(document, first, (count - 1) as nat, anchor) + preview_line(
            document,
            (first + count - 1) as nat,
            anchor,
        )
    }
}

/// The line that a preview is about: the one named, or the first, but none
/// behind the end.
pub open spec fn anchor_line(document: Seq<char>, line: Option<usize>) -> nat {
    let last = if line_count(document) == 0 {
        1
    } else {
        line_count(document)
    };
    let named = match line {
        Some(n) => n as nat,
        None => 1,
    };
    if named <= last {
        named
    } else {
        last
    }
}

/// The preview around a line: from three lines before it, six lines at most.
pub open spec fn context_of(document: Seq<char>, line: Option<usize>) -> Seq<char> {
    let last = if line_count(document) == 0 {
        1
    } else {
        line_count(document)
    };
    let anchor = anchor_line(document, line);
    let first = if anchor >= 4 {
        (anchor - 3) as nat
    } else {
        1
    };
    let count = if first + 5 <= last {
        6
    } else {
        (last + 1 - first) as nat
    };
    preview(document, first, count, anchor)
}

fn push_preview_line(
    out: &mut String,
    pieces: &Vec<Vec<char>>,
    number: usize,
    anchor: usize,
    document: Ghost<Seq<char>>,
)
    requires
        text::rows(pieces@) == text::split(document@, '\n'),
        number >= 1,
    ensures
        final(out)@ == old(out)@ + preview_line(document@, number as nat, anchor as nat),
{
    let ghost before = out@;
    if number == anchor {
        out.append("»");
    } else {
        out.append(" ");
    }
    text::push_padded(out, &text::decimal_text(number as u64), 6);
    out.append("  ");
    let line = if number <= pieces.len() {
        assert(pieces@[number - 1]@ == text::rows(pieces@)[number - 1]);
        text::trim_end(&pieces[number - 1], Trim::Space)
    } else {
        Vec::new()
    };
    let end: usize = if line.len() > XML_DEBUG_TRUNCATE_LEN {
        XML_DEBUG_TRUNCATE_LEN
    } else {
        line.len()
    };
    let shown = text::text_between(&line, 0, end);
    proof {
        assert(line@.subrange(0, end as int) =~= shown_line(document@, number as nat));
    }
    out.append(&shown);
    out.append("\n");
    assert(out@ =~= before + preview_line(document@, number as nat, anchor as nat));
}

/// The numbered lines around a place in a document, shown when it cannot be
/// parsed: around the line named (marked with `»`), or its head.
pub fn error_context(xml_content: &str, line: Option<usize>) -> (r: String)
    ensures
        r@ == context_of(xml_content@, line),
{
    let pieces = text::split_chars(&text::chars_of(xml_content), '\n');
    proof {
        text::lemma_split_pieces(xml_content@, '\n');
        assert(pieces@[pieces@.len() - 1]@ == text::rows(pieces@)[pieces@.len() - 1]);
    }
    let count: usize = if pieces[pieces.len() - 1].len() == 0 {
        pieces.len() - 1
    } else {
        pieces.len()
    };
    let last_line: usize = if count == 0 {
        1
    } else {
        count
    };
    let named: usize = match line {
        Some(n) => n,
        None => 1,
    };
    let anchor: usize = if named <= last_line {
        named
    } else {
        last_line
    };
    let first: usize = if anchor >= 4 {
        anchor - 3
    } else {
        1
    };
    let last: usize = if last_line - first >= 5 {
        first + 5
    } else {
        last_line
    };
    let mut out = String::new();
    let count: usize = last - first + 1;
    let mut i: usize = 0;
    assert(out@ =~= preview(xml_content@, first as nat, 0, anchor as nat));
    while i < count
        invariant
            text::rows(pieces@) == text::split(xml_content@, '\n'),
            i <= count,
            first >= 1,
            first + count - 1 <= usize::MAX,
            out@ == preview(xml_content@, first as nat, i as nat, anchor as nat),
        decreases count - i,
    {
        push_preview_line(&mut out, &pieces, first + i, anchor, Ghost(xml_content@));
        i += 1;
    }
    out
}

/// What a failed parse of the files list reads.
pub open spec fn parse_failure(xml_content: Seq<char>, message: Seq<char>) -> Seq<char> {
    "Failed to parse _files.xml metadata: "@ + message + ". Context:\n"@ + context_of(
        xml_content,
        match error_line(message) {
            Some(n) => Some(n as usize),
            None => None,
        },
    )
}

/// The files list that a document parsed to; where it did not parse, the
/// error names the failing line and shows the lines around it.
pub fn parse_xml_files(xml_content: &str, parsed: Result<XmlFiles, XmlFault>) -> (r: Result<
    XmlFiles,
    IaGetError,
>)
    ensures
        match parsed {
            Ok(files) => r == Ok::<XmlFiles, IaGetError>(files),
            Err(fault) => r matches Err(e) && (e matches IaGetError::XmlParsing(detail) && detail@
                == parse_failure(xml_content@, fault.message@)),
        },
{
    match parsed {
        Ok(files) => Ok(files),
        Err(fault) => {
            let mut detail = text::concat("Failed to parse _files.xml metadata: ", &fault.message);
            detail.append(". Context:\n");
            detail.append(&error_context(xml_content, parse_error_line(&fault.message)));
            Err(IaGetError::XmlParsing(detail))
        },
    }
}

/// What the answer to the metadata's HEAD request means: only a status that
/// says that the document does not exist is fatal. Any other answer, and
/// none, leaves it to the request that follows.
pub fn check_accessible(status: Option<u16>) -> (r: Result<(), IaGetError>)
    requires
        status is Some ==> status::is_status(status->0),
    ensures
        r is Err <==> status == Some(404u16) || status == Some(410u16),
        r matches Err(e) ==> e.is_network(
            "XML metadata not found (HTTP "@ + status::status_line(status->0)
                + "): the archive identifier may be incorrect"@,
        ),
{
    match status {
        Some(code) => {
            if code == 404 || code == 410 {
                let mut detail = text::concat(
                    "XML metadata not found (HTTP ",
                    &status::status_text(code),
                );
                detail.append("): the archive identifier may be incorrect");
                return Err(IaGetError::Network { detail, source: None });
            }
            Ok(())
        },
        None => Ok(()),
    }
}

/// What a metadata request brought, from the document and what it parsed to.
pub fn metadata_from_document(
    xml_url: &Link,
    content: String,
    parsed: Result<XmlFiles, XmlFault>,
    last_modified: Option<u64>,
) -> (r: Result<XmlMetadata, IaGetError>)
    ensures
        match parsed {
            Ok(files) => r matches Ok(meta) && meta.files == files && meta.base_url@ == xml_url@
                && meta.content == content && meta.last_modified == last_modified,
            Err(fault) => r matches Err(e) && (e matches IaGetError::XmlParsing(detail) && detail@
                == parse_failure(content@, fault.message@)),
        },
{
    match parse_xml_files(&content, parsed) {
        Ok(files) => Ok(
            XmlMetadata { files, base_url: xml_url.duplicate(), content, last_modified },
        ),
        Err(e) => Err(e),
    }
}

// ---------------------------------------------------------------------------
// Listing
// ---------------------------------------------------------------------------

/// A file's size in words.
pub open spec fn listed_size(file: XmlFile) -> Seq<char> {
    match file.size {
        Some(size) => display::size_words(size as nat),
        None => "unknown"@,
    }
}

/// A file's row in the list: its size and name, and a marker on the entry
/// for the metadata itself.
pub open spec fn listed_row(file: XmlFile, xml_file_name: Seq<char>) -> Seq<(Seq<char>, Style)> {
    let row = text::pad_left(listed_size(file), 9) + " "@ + file.name@;
    if file.name@ == xml_file_name {
        seq![(row + " "@, Style::Plain), ("(metadata)"@, Style::Dimmed)]
    } else {
        seq![(row, Style::Plain)]
    }
}

/// The rows of the file list.
pub fn list_file_rows(files: &XmlFiles, xml_file_name: &str) -> (r: Vec<Line>)
    ensures
        r@.len() == files.files@.len(),
        forall|i: int|
            0 <= i < r@.len() ==> (#[trigger] r@[i])@ == listed_row(
                files.files@[i],
                xml_file_name@,
            ),
{
    let mut rows: Vec<Line> = Vec::new();
    let mut i: usize = 0;
    while i < files.files.len()
        invariant
            i <= files.files.len(),
            rows@.len() == i,
            forall|k: int|
                0 <= k < i ==> (#[trigger] rows@[k])@ == listed_row(
                    files.files@[k],
                    xml_file_name@,
                ),
        decreases files.files.len() - i,
    {
        let file = &files.files[i];
        let size = match file.size {
            Some(size) => display::format_size(size),
            None => "unknown".to_owned(),
        };
        let mut row = String::new();
        text::push_padded(&mut row, &size, 9);
        assert(row@ =~= text::pad_left(listed_size(*file), 9));
        row.append(" ");
        row.append(&file.name);
        let mut line = Line::new();
        if text::same(&file.name, xml_file_name) {
            row.append(" ");
            line.push(&row, Style::Plain);
            line.push("(metadata)", Style::Dimmed);
        } else {
            line.push(&row, Style::Plain);
        }
        rows.push(line);
        i += 1;
    }
    rows
}

/// The sum of the sizes that are known.
pub open spec fn known_size(files: Seq<XmlFile>) -> nat
    decreases files.len(),
{
    if files.len() == 0 {
        0
    } else {
        known_size(files.drop_last()) + match files.last().size {
            Some(size) => size as nat,
            None => 0,
        }
    }
}

/// How many sizes are not known.
pub open spec fn unknown_sizes(files: Seq<XmlFile>) -> nat
    decreases files.len(),
{
    if files.len() == 0 {
        0
    } else {
        unknown_sizes(files.drop_last()) + if files.last().size is None {
            1nat
        } else {
            0
        }
    }
}

/// The summary below a file list.
pub open spec fn summary_words(files: Seq<XmlFile>) -> Seq<char> {
    let label = if files.len() == 1 {
        "file"@
    } else {
        "files"@
    };
    let head = text::decimal(files.len()) + " "@ + label + ", "@ + display::size_words(
        known_size(files),
    );
    if unknown_sizes(files) == 0 {
        head + " total"@
    } else {
        head + " total known size, "@ + text::decimal(unknown_sizes(files)) + " "@ + (
        if unknown_sizes(files) == 1 {
            "unknown size"@
        } else {
            "unknown sizes"@
        })
    }
}

proof fn lemma_known_size_grows(files: Seq<XmlFile>, i: int)
    requires
        0 <= i <= files.len(),
    ensures
        known_size(files.take(i)) <= known_size(files),
    decreases files.len(),
{
    if i == files.len() {
        assert(files.take(i) =~= files);
    } else {
        lemma_known_size_grows(files.drop_last(), i);
        assert(files.drop_last().take(i) =~= files.take(i));
    }
}

/// The known sizes of a file list added up, where the sum fits 64 bits.
pub fn total_known_size(files: &XmlFiles) -> (r: Option<u64>)
    ensures
        match r {
            Some(total) => total == known_size(files.files@),
            None => known_size(files.files@) > u64::MAX,
        },
{
    let mut total: u64 = 0;
    let mut i: usize = 0;
    while i < files.files.len()
        invariant
            i <= files.files.len(),
            total == known_size(files.files@.take(i as int)),
        decreases files.files.len() - i,
    {
        let size: u64 = match files.files[i].size {
            Some(size) => size,
            None => 0,
        };
        proof {
            assert(files.files@.take(i + 1).drop_last() =~= files.files@.take(i as int));
            lemma_known_size_grows(files.files@, i + 1);
        }
        match total.checked_add(size) {
            Some(sum) => {
                total = sum;
            },
            None => {
                return None;
            },
        }
        i += 1;
    }
    assert(files.files@.take(files.files@.len() as int) =~= files.files@);
    Some(total)
}

/// The summary below a file list: how many files, and how large together as
/// far as their sizes are known.
pub fn list_summary(files: &XmlFiles) -> (r: String)
    requires
        known_size(files.files@) <= u64::MAX,
    ensures
        r@ == summary_words(files.files@),
{
    let mut total: u64 = 0;
    let mut unknown: usize = 0;
    let mut i: usize = 0;
    while i < files.files.len()
        invariant
            i <= files.files.len(),
            known_size(files.files@) <= u64::MAX,
            total == known_size(files.files@.take(i as int)),
            unknown == unknown_sizes(files.files@.take(i as int)),
            unknown <= i,
        decreases files.files.len() - i,
    {
        proof {
            assert(files.files@.take(i + 1).drop_last() =~= files.files@.take(i as int));
            lemma_known_size_grows(files.files@, i + 1);
        }
        match files.files[i].size {
            Some(size) => {
                total = total + size;
            },
            None => {
                unknown = unknown + 1;
            },
        }
        i += 1;
    }
    assert(files.files@.take(files.files@.len() as int) =~= files.files@);
    let mut r = text::decimal_text(files.files.len() as u64);
    r.append(" ");
    if files.files.len() == 1 {
        r.append("file");
    } else {
        r.append("files");
    }
    r.append(", ");
    r.append(&display::format_size(total));
    if unknown == 0 {
        r.append(" total");
    } else {
        r.append(" total known size, ");
        text::push_decimal(&mut r, unknown as u64);
        r.append(" ");
        if unknown == 1 {
            r.append("unknown size");
        } else {
            r.append("unknown sizes");
        }
    }
    r
}

// ---------------------------------------------------------------------------
// What URLs and lists promise
// ---------------------------------------------------------------------------

/// Identifiers are made of the letters and digits of ASCII, the underscore,
/// the hyphen, the dot and the at sign, and are not empty.
pub proof fn identifiers_are_made_of_these(identifier: Seq<char>)
    ensures
        is_identifier(identifier) <==> (identifier.len() > 0 && forall|i: int|
            0 <= i < identifier.len() ==> ('a' <= #[trigger] identifier[i] <= 'z' || 'A'
                <= identifier[i] <= 'Z' || '0' <= identifier[i] <= '9' || identifier[i] == '_'
                || identifier[i] == '-' || identifier[i] == '.' || identifier[i] == '@')),
{
    if is_identifier(identifier) {
        assert forall|i: int| 0 <= i < identifier.len() implies ('a' <= #[trigger] identifier[i]
            <= 'z' || 'A' <= identifier[i] <= 'Z' || '0' <= identifier[i] <= '9' || identifier[i]
            == '_' || identifier[i] == '-' || identifier[i] == '.' || identifier[i] == '@') by {
            lemma_identifier_char(identifier[i]);
            assert(is_identifier_char(identifier[i]));
        }
    } else if identifier.len() > 0 {
        let i = choose|i: int|
            0 <= i < identifier.len() && !is_identifier_char(#[trigger] identifier[i]);
        lemma_identifier_char(identifier[i]);
    }
}

proof fn lemma_identifier_char(c: char)
    ensures
        is_identifier_char(c) <==> ('a' <= c <= 'z' || 'A' <= c <= 'Z' || '0' <= c <= '9' || c
            == '_' || c == '-' || c == '.' || c == '@'),
{
}

proof fn lemma_first_place(a: Seq<char>, c: char, rest: Seq<char>)
    requires
        !a.contains(c),
    ensures
        text::position(a, c) == a.len(),
        text::position(a + seq![c] + rest, c) == a.len(),
{
    let s = a + seq![c] + rest;
    text::lemma_position(a, c);
    text::lemma_position(s, c);
    let at = text::position(s, c);
    if text::position(a, c) < a.len() {
        assert(a.contains(a[text::position(a, c)]));
    }
    if at < a.len() {
        assert(a.contains(a[at]));
    }
    if at > a.len() {
        assert(s[a.len() as int] == c);
    }
}

proof fn lemma_items(identifier: Seq<char>, raw: Seq<char>)
    requires
        is_identifier(identifier),
    ensures
        item_and_path(identifier) == Some((identifier, None::<Seq<char>>)),
        item_and_path(identifier.push('/')) == Some((identifier, None::<Seq<char>>)),
        raw.contains('\n') ==> item_and_path(identifier + seq!['/'] + raw) is None,
        raw.len() > 0 && !raw.contains('\n') ==> item_and_path(identifier + seq!['/'] + raw)
            == Some((identifier, Some(raw))),
{
    assert(!identifier.contains('/')) by {
        if identifier.contains('/') {
            let i = choose|i: int| 0 <= i < identifier.len() && identifier[i] == '/';
            assert(is_identifier_char(identifier[i]));
        }
    }
    let none = Seq::<char>::empty();
    lemma_first_place(identifier, '/', none);
    lemma_first_place(identifier, '/', raw);
    assert(identifier.take(identifier.len() as int) =~= identifier);
    assert(identifier.push('/') =~= identifier + seq!['/'] + none);
    assert((identifier + seq!['/'] + none).take(identifier.len() as int) =~= identifier);
    assert((identifier + seq!['/'] + none).skip((identifier.len() + 1) as int) =~= none);
    assert((identifier + seq!['/'] + raw).take(identifier.len() as int) =~= identifier);
    assert((identifier + seq!['/'] + raw).skip((identifier.len() + 1) as int) =~= raw);
}

proof fn lemma_prefixes(tail: Seq<char>)
    ensures
        url_parts("https://archive.org/details/"@ + tail) == item_and_path(tail),
        url_parts("https://archive.org/download/"@ + tail) == item_and_path(tail),
        after("https://archive.org/details/"@ + tail, details_prefix()) == Some(tail),
        !is_details_url("https://archive.org/download/"@ + tail),
{
    lemma_download_is_no_details(tail);
    let url = "https://archive.org/details/"@ + tail;
    let prefix = "https://archive.org/details/"@;
    assert(url.take(prefix.len() as int) =~= prefix);
    assert(url.skip(prefix.len() as int) =~= tail);
}

/// A details or download URL with an identifier alone, with a separator
/// behind it or without, points at the whole item; only the details URL is
/// one of an item's details.
pub proof fn item_urls_point_at_the_item(identifier: Seq<char>)
    requires
        is_identifier(identifier),
    ensures
        target_of("https://archive.org/details/"@ + identifier) == Some(
            (identifier, None::<Seq<char>>),
        ),
        target_of("https://archive.org/details/"@ + identifier.push('/')) == Some(
            (identifier, None::<Seq<char>>),
        ),
        target_of("https://archive.org/download/"@ + identifier) == Some(
            (identifier, None::<Seq<char>>),
        ),
        target_of("https://archive.org/download/"@ + identifier.push('/')) == Some(
            (identifier, None::<Seq<char>>),
        ),
        is_details_url("https://archive.org/details/"@ + identifier),
        is_details_url("https://archive.org/details/"@ + identifier.push('/')),
        !is_details_url("https://archive.org/download/"@ + identifier),
{
    lemma_items(identifier, Seq::empty());
    lemma_prefixes(identifier);
    lemma_prefixes(identifier.push('/'));
}

/// A details or download URL with a path behind the identifier points at the
/// file that the path decodes to, without separators around it; it points at
/// nothing where the path holds a line break, decodes to no text, or names
/// nothing but separators. None of these is a details URL of an item.
pub proof fn path_urls_point_at_the_file(
    identifier: Seq<char>,
    raw: Seq<char>,
    front: Seq<char>,
    name: Seq<char>,
    back: Seq<char>,
)
    requires
        is_identifier(identifier),
        raw.len() > 0,
        forall|i: int| 0 <= i < front.len() ==> #[trigger] front[i] == '/',
        forall|i: int| 0 <= i < back.len() ==> #[trigger] back[i] == '/',
        name.len() > 0 ==> name.first() != '/' && name.last() != '/',
    ensures
        ({
            let details = "https://archive.org/details/"@ + identifier + seq!['/'] + raw;
            let download = "https://archive.org/download/"@ + identifier + seq!['/'] + raw;
            &&& target_of(details) == target_of(download)
            &&& raw.contains('\n') || percent::decoded(raw) is None ==> target_of(details) is None
            &&& !raw.contains('\n') && percent::decoded(raw) == Some(front + name + back) ==> (
            target_of(details) == if name.len() > 0 {
                Some((identifier, Some(name)))
            } else {
                None
            })
            &&& !is_details_url(details)
            &&& !is_details_url(download)
        }),
{
    let tail = identifier + seq!['/'] + raw;
    lemma_items(identifier, raw);
    lemma_prefixes(tail);
    assert("https://archive.org/details/"@ + identifier + seq!['/'] + raw
        =~= "https://archive.org/details/"@ + tail);
    assert("https://archive.org/download/"@ + identifier + seq!['/'] + raw
        =~= "https://archive.org/download/"@ + tail);
    assert forall|i: int| 0 <= i < front.len() implies Trim::Slash.has(#[trigger] front[i]) by {
        text::white_space_is_that_of_unicode(front[i]);
    }
    assert forall|i: int| 0 <= i < back.len() implies Trim::Slash.has(#[trigger] back[i]) by {
        text::white_space_is_that_of_unicode(back[i]);
    }
    if name.len() > 0 {
        text::white_space_is_that_of_unicode(name.first());
        text::white_space_is_that_of_unicode(name.last());
    }
    text::trimming_leaves_the_middle(front, name, back, Trim::Slash);
}

/// A URL that points at something is a details or download URL on
/// archive.org, with an identifier behind it that ends the URL or is
/// followed by a separator.
pub proof fn other_urls_point_at_nothing(url: Seq<char>)
    requires
        target_of(url) is Some,
    ensures
        ({
            let target = target_of(url)->0;
            let details = "https://archive.org/details/"@ + target.0;
            let download = "https://archive.org/download/"@ + target.0;
            &&& is_identifier(target.0)
            &&& url == details || url == download || details.push('/').is_prefix_of(url)
                || download.push('/').is_prefix_of(url)
        }),
{
    let target = target_of(url)->0;
    let identifier = target.0;
    let prefix = if after(url, details_prefix()) is Some {
        "https://archive.org/details/"@
    } else {
        "https://archive.org/download/"@
    };
    let tail = url.skip(prefix.len() as int);
    assert(url =~= prefix + tail);
    text::lemma_position(tail, '/');
    let end = text::position(tail, '/');
    assert(tail =~= identifier + tail.skip(end));
    if end >= tail.len() {
        assert(tail =~= identifier);
    } else {
        let start = (prefix + identifier).push('/');
        assert(url.take(start.len() as int) =~= start);
    }
}

/// The files list of an item lies among its files, under the identifier with
/// `_files.xml` behind it.
pub proof fn files_lists_lie_among_the_files(identifier: Seq<char>)
    ensures
        files_list_address(identifier) == "https://archive.org/download/"@ + identifier + seq!['/']
            + identifier + "_files.xml"@,
{
    reveal_strlit("/");
    assert("/"@ =~= seq!['/']);
}

/// The line that a parser message names is read: `Reader: `, the number, a
/// colon, the column and a space. A message that starts otherwise names none.
pub proof fn named_lines_are_read(n: usize, column: Seq<char>, rest: Seq<char>, other: Seq<char>)
    requires
        n >= 1,
        !column.contains(' '),
        !"Reader: "@.is_prefix_of(other),
    ensures
        error_line("Reader: "@ + text::decimal(n as nat) + seq![':'] + column + seq![' '] + rest)
            == Some(n as nat),
        error_line("Reader: "@ + seq!['0', ':'] + column + seq![' '] + rest) is None,
        error_line(other) is None,
{
    text::lemma_decimal(n as nat);
    text::reading_a_written_number(n as nat);
    lemma_error_line(text::decimal(n as nat), column, rest);
    lemma_error_line(seq!['0'], column, rest);
    assert("Reader: "@ + seq!['0', ':'] + column + seq![' '] + rest =~= "Reader: "@ + seq!['0']
        + seq![':'] + column + seq![' '] + rest);
    assert(seq!['0'].drop_last() =~= Seq::<char>::empty());
    assert(text::decimal(0) =~= seq!['0']);
    text::reading_a_written_number(0);
    text::lemma_decimal(0);
}

proof fn lemma_error_line(digits: Seq<char>, column: Seq<char>, rest: Seq<char>)
    requires
        digits.len() > 0,
        text::all_digits(digits),
        !column.contains(' '),
    ensures
        ({
            let message = "Reader: "@ + digits + seq![':'] + column + seq![' '] + rest;
            &&& after(message, "Reader: "@) is Some
            &&& error_line(message) == (match text::unsigned(digits) {
                Some(n) => if 1 <= n <= usize::MAX {
                    Some(n)
                } else {
                    None
                },
                None => None,
            })
        }),
{
    let prefix = "Reader: "@;
    let message = prefix + digits + seq![':'] + column + seq![' '] + rest;
    let place = digits + seq![':'] + column;
    let tail = place + seq![' '] + rest;
    assert(message =~= prefix + tail);
    assert(message.take(prefix.len() as int) =~= prefix);
    assert(message.skip(prefix.len() as int) =~= tail);
    assert(!digits.contains(':') && !digits.contains(' ')) by {
        assert forall|i: int| 0 <= i < digits.len() implies digits[i] != ':' && digits[i]
            != ' ' by {
            assert(text::is_digit(digits[i]));
        }
    }
    assert(!place.contains(' ')) by {
        assert forall|i: int| 0 <= i < place.len() implies place[i] != ' ' by {
            if i < digits.len() {
                assert(place[i] == digits[i]);
                assert(digits.contains(digits[i]));
            } else if i > digits.len() {
                assert(place[i] == column[i - digits.len() - 1]);
                assert(column.contains(column[i - digits.len() - 1]));
            }
        }
    }
    lemma_first_place(place, ' ', rest);
    lemma_first_place(digits, ':', column);
    assert(tail.take(place.len() as int) =~= place);
    assert(place.take(digits.len() as int) =~= digits);
}

/// An empty document has no line; a line break at the end starts none; what
/// follows a line break is one line more.
pub proof fn lines_are_counted_by_their_breaks(document: Seq<char>, line: Seq<char>)
    requires
        line.len() > 0,
        !line.contains('\n'),
    ensures
        line_count(Seq::empty()) == 0,
        line_count(line) == 1,
        line_count(line.push('\n')) == 1,
        line_count(document + seq!['\n'] + line) == line_count(document.push('\n')) + 1,
        document.len() > 0 && document.last() != '\n' ==> line_count(document.push('\n'))
            == line_count(document),
{
    let none = Seq::<char>::empty();
    text::lemma_split_whole(none, '\n');
    text::lemma_split_whole(line, '\n');
    text::lemma_split_append(line, none, '\n');
    assert(line + seq!['\n'] + none =~= line.push('\n'));
    text::lemma_split_append(document, line, '\n');
    text::lemma_split_append(document, none, '\n');
    assert(document + seq!['\n'] + none =~= document.push('\n'));
    text::lemma_split_pieces(document, '\n');
}

/// A line is shown as it stands, but for white space at its end, and up to
/// its thousandth character.
pub proof fn lines_are_shown_as_they_stand(lines: Seq<Seq<char>>, at: int, back: Seq<char>)
    requires
        0 <= at < lines.len(),
        forall|i: int| 0 <= i < lines.len() ==> !(#[trigger] lines[i]).contains('\n'),
        forall|i: int| 0 <= i < back.len() ==> Trim::Space.has(#[trigger] back[i]),
    ensures
        forall|line: Seq<char>|
            lines[at] == #[trigger] (line + back) && (line.len() > 0 ==> !Trim::Space.has(
                line.last(),
            )) ==> shown_line(text::join(lines, seq!['\n']), (at + 1) as nat) == if line.len()
                > 1000 {
                line.take(1000)
            } else {
                line
            },
{
    text::lemma_split_join(lines, '\n');
    assert forall|line: Seq<char>|
        lines[at] == #[trigger] (line + back) && (line.len() > 0 ==> !Trim::Space.has(
            line.last(),
        )) implies shown_line(text::join(lines, seq!['\n']), (at + 1) as nat) == (if line.len()
        > 1000 {
        line.take(1000)
    } else {
        line
    }) by {
        text::lemma_trim_back_run(line, back, Trim::Space);
    }
}

/// A line of a preview starts with a mark where it is the one that matters
/// and with a blank elsewhere, gives its number, what is shown of it, and a
/// line break; a preview is made of its lines one after the other.
pub proof fn previews_number_their_lines(
    document: Seq<char>,
    first: nat,
    some: nat,
    more: nat,
    anchor: nat,
    number: nat,
)
    ensures
        preview(document, first, some + more, anchor) == preview(document, first, some, anchor)
            + preview(document, first + some, more, anchor),
        preview(document, number, 1, anchor) == seq![
            if number == anchor {
                '»'
            } else {
                ' '
            },
        ] + text::pad_left(text::decimal(number), 6) + seq![' ', ' '] + shown_line(document, number)
            + seq!['\n'],
    decreases more,
{
    reveal_strlit("»");
    reveal_strlit(" ");
    reveal_strlit("  ");
    reveal_strlit("\n");
    assert("»"@ =~= seq!['»']);
    assert(" "@ =~= seq![' ']);
    assert("  "@ =~= seq![' ', ' ']);
    assert("\n"@ =~= seq!['\n']);
    let none = Seq::<char>::empty();
    assert(preview(document, number, 0, anchor) =~= none);
    assert(preview(document, number, 1, anchor) =~= none + preview_line(document, number, anchor));
    assert(preview(document, number, 1, anchor) =~= preview_line(document, number, anchor));
    if more > 0 {
        previews_number_their_lines(document, first, some, (more - 1) as nat, anchor, number);
        assert(preview(document, first, some + more, anchor) =~= preview(
            document,
            first,
            some,
            anchor,
        ) + preview(document, first + some, more, anchor));
    } else {
        assert(preview(document, first + some, 0, anchor) =~= none);
        assert(preview(document, first, some, anchor) + none =~= preview(
            document,
            first,
            some,
            anchor,
        ));
    }
}

/// The context of a line starts three lines before it, or with the first
/// line, and goes on for six lines, or to the last; a line behind the end
/// stands for the last, and none for the first.
pub proof fn contexts_surround_the_line(document: Seq<char>, line: usize, last: nat)
    requires
        last == line_count(document),
        1 <= line <= last,
    ensures
        line >= 4 && line + 2 <= last ==> context_of(document, Some(line)) == preview(
            document,
            (line - 3) as nat,
            6,
            line as nat,
        ),
        line >= 4 && line + 2 > last ==> context_of(document, Some(line)) == preview(
            document,
            (line - 3) as nat,
            (last - line + 4) as nat,
            line as nat,
        ),
        line < 4 && last >= 6 ==> context_of(document, Some(line)) == preview(
            document,
            1,
            6,
            line as nat,
        ),
        line < 4 && last < 6 ==> context_of(document, Some(line)) == preview(
            document,
            1,
            last,
            line as nat,
        ),
        context_of(document, None) == context_of(document, Some(1)),
        forall|far: usize|
            far >= last && last <= usize::MAX ==> #[trigger] context_of(document, Some(far))
                == context_of(document, Some(last as usize)),
{
}

/// The failure to read a files list gives the parser's words and then the
/// context of the line that they name.
pub proof fn parse_failures_show_the_place(document: Seq<char>, message: Seq<char>, line: usize)
    ensures
        error_line(message) == Some(line as nat) ==> parse_failure(document, message)
            == "Failed to parse _files.xml metadata: "@ + message + ". Context:\n"@ + context_of(
            document,
            Some(line),
        ),
        error_line(message) is None ==> parse_failure(document, message)
            == "Failed to parse _files.xml metadata: "@ + message + ". Context:\n"@ + context_of(
            document,
            None,
        ),
{
}

/// The total of a list is the sum of the sizes that are known, and the files
/// without one are counted.
pub proof fn known_sizes_add_up(a: Seq<XmlFile>, b: Seq<XmlFile>, one: XmlFile)
    ensures
        known_size(a + b) == known_size(a) + known_size(b),
        unknown_sizes(a + b) == unknown_sizes(a) + unknown_sizes(b),
        one.size matches Some(size) ==> known_size(seq![one]) == size && unknown_sizes(seq![one])
            == 0,
        one.size is None ==> known_size(seq![one]) == 0 && unknown_sizes(seq![one]) == 1,
        known_size(Seq::empty()) == 0,
        unknown_sizes(Seq::empty()) == 0,
    decreases b.len(),
{
    assert(seq![one].drop_last() =~= Seq::<XmlFile>::empty());
    assert(seq![one].last() == one);
    assert(known_size(Seq::<XmlFile>::empty()) == 0);
    assert(unknown_sizes(Seq::<XmlFile>::empty()) == 0);
    if b.len() == 0 {
        assert(a + b =~= a);
    } else {
        known_sizes_add_up(a, b.drop_last(), one);
        assert((a + b).drop_last() =~= a + b.drop_last());
    }
}

/// The summary of a list says how many files it has and how large those of
/// known size are together; where others are among them, it says how many.
pub proof fn list_summaries_say_what_is_known(files: Seq<XmlFile>)
    ensures
        unknown_sizes(files) == 0 && files.len() == 1 ==> summary_words(files) == text::decimal(1)
            + " "@ + "file"@ + ", "@ + display::size_words(known_size(files)) + " total"@,
        unknown_sizes(files) == 0 && files.len() != 1 ==> summary_words(files) == text::decimal(
            files.len(),
        ) + " "@ + "files"@ + ", "@ + display::size_words(known_size(files)) + " total"@,
        unknown_sizes(files) == 1 && files.len() == 1 ==> summary_words(files) == text::decimal(1)
            + " "@ + "file"@ + ", "@ + display::size_words(known_size(files))
            + " total known size, "@ + text::decimal(1) + " "@ + "unknown size"@,
        unknown_sizes(files) == 1 && files.len() != 1 ==> summary_words(files) == text::decimal(
            files.len(),
        ) + " "@ + "files"@ + ", "@ + display::size_words(known_size(files))
            + " total known size, "@ + text::decimal(1) + " "@ + "unknown size"@,
        unknown_sizes(files) > 1 && files.len() != 1 ==> summary_words(files) == text::decimal(
            files.len(),
        ) + " "@ + "files"@ + ", "@ + display::size_words(known_size(files))
            + " total known size, "@ + text::decimal(unknown_sizes(files)) + " "@
            + "unknown sizes"@,
{
}

/// A file's row gives its size, or that it is unknown, and ends with its
/// name; the entry for the metadata alone is marked as that.
pub proof fn rows_name_their_file(file: XmlFile, xml_file_name: Seq<char>)
    ensures
        ({
            let row = listed_row(file, xml_file_name);
            let size = match file.size {
                Some(size) => display::size_words(size as nat),
                None => "unknown"@,
            };
            &&& file.name@ != xml_file_name ==> row == seq![
                (text::pad_left(size, 9) + seq![' '] + file.name@, Style::Plain),
            ]
            &&& file.name@ == xml_file_name ==> row == seq![
                (text::pad_left(size, 9) + seq![' '] + file.name@ + seq![' '], Style::Plain),
                ("(metadata)"@, Style::Dimmed),
            ]
        }),
{
    reveal_strlit(" ");
    assert(" "@ =~= seq![' ']);
}

/// The context in a document without lines is its first line, which is
/// empty.
pub proof fn empty_documents_have_one_line_of_context(document: Seq<char>, line: usize)
    requires
        line_count(document) == 0,
        line >= 1,
    ensures
        context_of(document, None) == preview(document, 1, 1, 1),
        context_of(document, Some(line)) == preview(document, 1, 1, 1),
{
}

} // verus!
