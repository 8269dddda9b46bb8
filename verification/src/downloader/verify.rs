//! Verifying local files by size and MD5 hash.

use crate::display;
use crate::error::IaGetError;
use crate::styled::{Line, Style};
use crate::text;
use vstd::prelude::*;

verus! {

// ---------------------------------------------------------------------------
// Hashing
// ---------------------------------------------------------------------------

/// An MD5 hasher in the middle of its work (`md5::Md5`).
#[verifier::external_type_specification]
#[verifier::external_body]
pub struct ExMd5(md5::Md5);

/// The bytes that a hasher was given so far.
pub uninterp spec fn absorbed(hasher: md5::Md5) -> Seq<u8>;

/// The MD5 hash of bytes, as `md5::Md5` computes it.
pub uninterp spec fn md5_of(bytes: Seq<u8>) -> Seq<u8>;

/// A new hasher (`digest::Digest::new`): it was given nothing yet.
#[verifier::external_body]
fn new_hasher() -> (r: md5::Md5)
    ensures
        absorbed(r) == Seq::<u8>::empty(),
{
    <md5::Md5 as digest::Digest>::new()
}

/// Giving bytes to a hasher (`digest::Digest::update`): they follow those that
/// it was given.
#[verifier::external_body]
fn absorb(hasher: &mut md5::Md5, bytes: &[u8])
    ensures
        absorbed(*final(hasher)) == absorbed(*old(hasher)) + bytes@,
{
    digest::Digest::update(hasher, bytes);
}

/// The hash of what a hasher was given (`digest::Digest::finalize`): the
/// sixteen bytes named.
#[verifier::external_body]
fn finish_hash(hasher: md5::Md5) -> (r: Vec<u8>)
    ensures
        r@ == md5_of(absorbed(hasher)),
        r@.len() == 16,
{
    digest::Digest::finalize(hasher).to_vec()
}

/// The lower-case hexadecimal digit for a number below sixteen.
pub open spec fn hex_digit(value: nat) -> char {
    if value < 10 {
        (0x30 + value) as char
    } else {
        (0x61 + value - 10) as char
    }
}

/// Bytes in lower-case hexadecimal digits.
pub open spec fn hex(bytes: Seq<u8>) -> Seq<char>
    decreases bytes.len(),
{
    if bytes.len() == 0 {
        Seq::empty()
    } else {
        hex(bytes.drop_last()).push(hex_digit((bytes.last() / 16) as nat)).push(
            hex_digit((bytes.last() % 16) as nat),
        )
    }
}

fn hex_char(value: u8) -> (c: char)
    requires
        value < 16,
    ensures
        c == hex_digit(value as nat),
{
    if value < 10 {
        (0x30 + value) as char
    } else {
        (0x61 + (value - 10)) as char
    }
}

/// The lower-case hexadecimal rendering of a hash.
pub fn digest_hex(digest: &Vec<u8>) -> (r: String)
    ensures
        r@ == hex(digest@),
{
    let mut r = String::new();
    let mut i: usize = 0;
    assert(r@ =~= hex(digest@.take(0)));
    while i < digest.len()
        invariant
            i <= digest.len(),
            r@ == hex(digest@.take(i as int)),
        decreases digest.len() - i,
    {
        let byte: u8 = digest[i];
        assert(digest@.take(i + 1).drop_last() =~= digest@.take(i as int));
        r.push(hex_char(byte / 16));
        r.push(hex_char(byte % 16));
        i += 1;
    }
    assert(digest@.take(digest@.len() as int) =~= digest@);
    r
}

/// A rendered hash has two digits for each byte.
pub proof fn hex_has_two_digits_per_byte(bytes: Seq<u8>)
    ensures
        hex(bytes).len() == 2 * bytes.len(),
    decreases bytes.len(),
{
    if bytes.len() > 0 {
        hex_has_two_digits_per_byte(bytes.drop_last());
    }
}

/// The size from which on hashing shows its progress.
pub const LARGE_FILE_THRESHOLD: u64 = 2_097_152;

/// Whether hashing a file shows its progress.
pub fn shows_hash_progress(file_size: u64) -> (r: bool)
    ensures
        r == (file_size > LARGE_FILE_THRESHOLD),
{
    file_size > LARGE_FILE_THRESHOLD
}

/// The hash of a file in the making: it is fed with the file's pieces, one
/// after the other.
pub struct FileHasher {
    context: md5::Md5,
}

impl View for FileHasher {
    type V = Seq<u8>;

    /// The bytes of the file so far.
    closed spec fn view(&self) -> Seq<u8> {
        absorbed(self.context)
    }
}

impl FileHasher {
    /// No piece was fed yet.
    pub fn new() -> (r: Self)
        ensures
            r@ == Seq::<u8>::empty(),
    {
        FileHasher { context: new_hasher() }
    }

    /// Feeds the next piece. A request to stop ends the hashing.
    pub fn feed(&mut self, piece: &[u8], running: bool) -> (r: Result<(), IaGetError>)
        ensures
            running ==> r is Ok && final(self)@ == old(self)@ + piece@,
            !running ==> (r matches Err(e) && e is Interrupted) && final(self)@ == old(self)@,
    {
        if !running {
            return Err(IaGetError::Interrupted);
        }
        absorb(&mut self.context, piece);
        Ok(())
    }

    /// The hash of all pieces, in hexadecimal digits.
    pub fn finish(self) -> (r: String)
        ensures
            r@ == hex(md5_of(self@)),
            r@.len() == 32,
    {
        let digest = finish_hash(self.context);
        proof {
            hex_has_two_digits_per_byte(digest@);
        }
        digest_hex(&digest)
    }
}

/// Whether two hashes are the same, whatever the case of their digits.
pub fn hash_matches(local: &str, expected: &str) -> (r: bool)
    ensures
        r == (text::lowered(local@) == text::lowered(expected@)),
{
    text::same_ignoring_case(local, expected)
}

// ---------------------------------------------------------------------------
// The copy that is already there
// ---------------------------------------------------------------------------

/// What stands at a file's path.
#[derive(Debug)]
pub enum PathState {
    Symlink,
    Directory,
    Regular,
    /// A pipe, a device, or another special file.
    Special,
    /// Nothing.
    NotFound,
    /// It could not be looked at: what the system says.
    Unreadable(String),
}

/// What came of checking the copy that is already there.
#[derive(Debug)]
pub enum ExistingFileStatus {
    /// There is none.
    Missing,
    /// It is right; the hash, where one was known to compare with.
    Verified { md5: Option<String> },
    /// It is wrong.
    Invalid,
    /// It could not be read, and is left alone: why.
    Unreadable(String),
}

/// The size that differs from the expected one, and that one; nothing where
/// they agree or none is expected.
pub open spec fn mismatch(actual: u64, expected: Option<u64>) -> Option<(u64, u64)> {
    match expected {
        Some(size) => if size == actual {
            None
        } else {
            Some((actual, size))
        },
        None => None,
    }
}

/// The size that differs from the expected one, and that one.
pub fn size_mismatch(actual: u64, expected_size: Option<u64>) -> (r: Option<(u64, u64)>)
    ensures
        r == mismatch(actual, expected_size),
{
    match expected_size {
        Some(size) => if size == actual {
            None
        } else {
            Some((actual, size))
        },
        None => None,
    }
}

/// Whether the copy that is already there has to be hashed: it is a regular
/// file of the expected size, where one is expected, and a hash is known.
pub open spec fn existing_needs_hash(
    state: PathState,
    size: Result<u64, IaGetError>,
    expected_md5: Option<Seq<char>>,
    expected_size: Option<u64>,
) -> bool {
    state is Regular && expected_md5 is Some && (expected_size is Some ==> (size matches Ok(actual)
        && mismatch(actual, expected_size) is None))
}

/// Whether the copy that is already there has to be hashed.
pub fn needs_existing_hash(
    state: &PathState,
    size: &Result<u64, IaGetError>,
    expected_md5: &Option<String>,
    expected_size: Option<u64>,
) -> (r: bool)
    ensures
        r == existing_needs_hash(*state, *size, text::maybe(*expected_md5), expected_size),
{
    match state {
        PathState::Regular => expected_md5.is_some() && match expected_size {
            None => true,
            Some(_) => match size {
                Ok(actual) => size_mismatch(*actual, expected_size).is_none(),
                Err(_) => false,
            },
        },
        _ => false,
    }
}

/// Whether an outcome is that of checking the copy that is already there.
pub open spec fn is_existing_status(
    r: Result<ExistingFileStatus, IaGetError>,
    state: PathState,
    size: Result<u64, IaGetError>,
    hash: Result<String, IaGetError>,
    expected_md5: Option<Seq<char>>,
    expected_size: Option<u64>,
) -> bool {
    let unreadable = |reason: Seq<char>|
        r matches Ok(status) && (status matches ExistingFileStatus::Unreadable(text) && text@
            == reason);
    match state {
        PathState::Symlink => unreadable("a symlink occupies the file path"@),
        PathState::Directory => unreadable("a directory occupies the file path"@),
        PathState::Special => unreadable("a non-regular file occupies the file path"@),
        PathState::NotFound => r matches Ok(status) && status is Missing,
        PathState::Unreadable(message) => unreadable("could not read file: "@ + message@),
        PathState::Regular => if expected_size is Some && size is Err {
            unreadable("could not read file size: "@ + size->Err_0.text())
        } else if expected_size is Some && mismatch(size->Ok_0, expected_size) is Some {
            r matches Ok(status) && status is Invalid
        } else if expected_md5 is None {
            r matches Ok(status) && (status matches ExistingFileStatus::Verified { md5 } && md5
                is None)
        } else {
            match hash {
                Err(e) => if e is Interrupted {
                    r matches Err(stop) && stop is Interrupted
                } else {
                    unreadable("could not verify existing file: "@ + e.text())
                },
                Ok(local) => if text::lowered(local@) == text::lowered(expected_md5->0) {
                    r matches Ok(status) && (status matches ExistingFileStatus::Verified { md5 }
                        && text::maybe(md5) == Some(local@))
                } else {
                    r matches Ok(status) && status is Invalid
                },
            }
        },
    }
}

/// Checks the copy that is already there: its kind first, then its size,
/// then its hash, which is looked at only where the rest is right. What
/// cannot be read is not wrong: it is left alone. A request to stop while
/// hashing ends the check.
pub fn check_existing_file(
    state: &PathState,
    size: &Result<u64, IaGetError>,
    hash: &Result<String, IaGetError>,
    expected_md5: &Option<String>,
    expected_size: Option<u64>,
) -> (r: Result<ExistingFileStatus, IaGetError>)
    ensures
        is_existing_status(
            r,
            *state,
            *size,
            *hash,
            text::maybe(*expected_md5),
            expected_size,
        ),
{
    match state {
        PathState::Symlink => {
            return Ok(
                ExistingFileStatus::Unreadable("a symlink occupies the file path".to_owned()),
            );
        },
        PathState::Directory => {
            return Ok(
                ExistingFileStatus::Unreadable("a directory occupies the file path".to_owned()),
            );
        },
        PathState::Special => {
            return Ok(
                ExistingFileStatus::Unreadable(
                    "a non-regular file occupies the file path".to_owned(),
                ),
            );
        },
        PathState::NotFound => {
            return Ok(ExistingFileStatus::Missing);
        },
        PathState::Unreadable(message) => {
            return Ok(
                ExistingFileStatus::Unreadable(text::concat("could not read file: ", message)),
            );
        },
        PathState::Regular => {},
    }
    if expected_size.is_some() {
        match size {
            Err(e) => {
                return Ok(
                    ExistingFileStatus::Unreadable(
                        text::concat("could not read file size: ", &e.to_text()),
                    ),
                );
            },
            Ok(actual) => {
                if size_mismatch(*actual, expected_size).is_some() {
                    return Ok(ExistingFileStatus::Invalid);
                }
            },
        }
    }
    let expected = match expected_md5 {
        Some(expected) => expected,
        None => {
            return Ok(ExistingFileStatus::Verified { md5: None });
        },
    };
    match hash {
        Err(e) => match e {
            IaGetError::Interrupted => Err(IaGetError::Interrupted),
            _ => Ok(
                ExistingFileStatus::Unreadable(
                    text::concat("could not verify existing file: ", &e.to_text()),
                ),
            ),
        },
        Ok(local) => if hash_matches(local, expected) {
            Ok(ExistingFileStatus::Verified { md5: Some(local.clone()) })
        } else {
            Ok(ExistingFileStatus::Invalid)
        },
    }
}

/// A copy that is there is found wrong only by what was read of it: a size
/// or a hash that differs from the expected one. What could not be read is
/// never found wrong, so it is never removed.
pub proof fn only_read_copies_are_invalid(
    r: Result<ExistingFileStatus, IaGetError>,
    state: PathState,
    size: Result<u64, IaGetError>,
    hash: Result<String, IaGetError>,
    expected_md5: Option<Seq<char>>,
    expected_size: Option<u64>,
)
    requires
        is_existing_status(r, state, size, hash, expected_md5, expected_size),
        r matches Ok(status) && status is Invalid,
    ensures
        state is Regular,
        (expected_size is Some && size is Ok && size->Ok_0 != expected_size->0) || (expected_md5
            is Some && hash is Ok && text::lowered(hash->Ok_0@) != text::lowered(expected_md5->0)),
{
}

// ---------------------------------------------------------------------------
// The copy that was downloaded
// ---------------------------------------------------------------------------

/// The line that is shown for a verified file.
pub open spec fn verified_line(md5: Option<Seq<char>>) -> Seq<(Seq<char>, Style)> {
    match md5 {
        Some(hash) => seq![
            ("╰╼"@, Style::CyanDimmed),
            (" "@, Style::Plain),
            ("Hash"@, Style::White),
            ("         "@, Style::Plain),
            ("✔"@, Style::GreenBold),
            (" "@, Style::Plain),
            ("("@ + hash + ")"@, Style::Dimmed),
        ],
        None => seq![
            ("-"@, Style::Dimmed),
            (" "@, Style::Plain),
            ("No MD5 hash provided for verification."@, Style::Dimmed),
        ],
    }
}

/// The line that is shown for a file of the wrong size.
pub open spec fn wrong_size_line(actual: u64, expected: u64) -> Seq<(Seq<char>, Style)> {
    seq![
        ("╰╼"@, Style::CyanDimmed),
        (" "@, Style::Plain),
        ("Size"@, Style::White),
        ("         "@, Style::Plain),
        ("✘"@, Style::RedBold),
        (" "@, Style::Plain),
        (display::size_words(actual as nat), Style::Red),
        (" (expected "@, Style::Plain),
        (display::size_words(expected as nat), Style::Dimmed),
        (")"@, Style::Plain),
    ]
}

/// The line that is shown for a file of the wrong hash.
pub open spec fn wrong_hash_line(local: Seq<char>, expected: Seq<char>) -> Seq<(Seq<char>, Style)> {
    seq![
        ("╰╼"@, Style::CyanDimmed),
        (" "@, Style::Plain),
        ("Hash"@, Style::White),
        ("         "@, Style::Plain),
        ("✘"@, Style::RedBold),
        (" ("@, Style::Plain),
        (local, Style::Red),
        (") Expected ("@, Style::Plain),
        (expected, Style::Dimmed),
        (")"@, Style::Plain),
    ]
}

/// The line that is shown for a verified file.
pub fn print_verified_hash(md5: Option<&str>) -> (r: Line)
    ensures
        r@ == verified_line(
            match md5 {
                Some(hash) => Some(hash@),
                None => None,
            },
        ),
{
    let mut line = Line::new();
    match md5 {
        Some(hash) => {
            line.push("╰╼", Style::CyanDimmed);
            line.push(" ", Style::Plain);
            line.push("Hash", Style::White);
            line.push("         ", Style::Plain);
            line.push("✔", Style::GreenBold);
            line.push(" ", Style::Plain);
            let mut shown = text::concat("(", hash);
            shown.append(")");
            line.push(&shown, Style::Dimmed);
            assert(line@ =~= verified_line(Some(hash@)));
        },
        None => {
            line.push("-", Style::Dimmed);
            line.push(" ", Style::Plain);
            line.push("No MD5 hash provided for verification.", Style::Dimmed);
            assert(line@ =~= verified_line(None));
        },
    }
    line
}

fn line_of_wrong_size(actual: u64, expected: u64) -> (r: Line)
    ensures
        r@ == wrong_size_line(actual, expected),
{
    let mut line = Line::new();
    line.push("╰╼", Style::CyanDimmed);
    line.push(" ", Style::Plain);
    line.push("Size", Style::White);
    line.push("         ", Style::Plain);
    line.push("✘", Style::RedBold);
    line.push(" ", Style::Plain);
    line.push(&display::format_size(actual), Style::Red);
    line.push(" (expected ", Style::Plain);
    line.push(&display::format_size(expected), Style::Dimmed);
    line.push(")", Style::Plain);
    assert(line@ =~= wrong_size_line(actual, expected));
    line
}

fn line_of_wrong_hash(local: &str, expected: &str) -> (r: Line)
    ensures
        r@ == wrong_hash_line(local@, expected@),
{
    let mut line = Line::new();
    line.push("╰╼", Style::CyanDimmed);
    line.push(" ", Style::Plain);
    line.push("Hash", Style::White);
    line.push("         ", Style::Plain);
    line.push("✘", Style::RedBold);
    line.push(" (", Style::Plain);
    line.push(local, Style::Red);
    line.push(") Expected (", Style::Plain);
    line.push(expected, Style::Dimmed);
    line.push(")", Style::Plain);
    assert(line@ =~= wrong_hash_line(local@, expected@));
    line
}

/// What came of verifying a downloaded file.
#[derive(Debug)]
pub enum PartVerification {
    /// It is right.
    Valid,
    /// It is not what the metadata says.
    Mismatch,
    /// It could not be read: why.
    Unreadable(String),
}

/// Whether a downloaded file has to be hashed: a hash is known, and the size
/// is right where one is expected.
pub open spec fn download_needs_hash(
    size: Result<u64, IaGetError>,
    expected_md5: Option<Seq<char>>,
    expected_size: Option<u64>,
) -> bool {
    expected_md5 is Some && (expected_size is Some ==> (size matches Ok(actual) && mismatch(
        actual,
        expected_size,
    ) is None))
}

/// Whether a downloaded file has to be hashed.
pub fn needs_download_hash(
    size: &Result<u64, IaGetError>,
    expected_md5: &Option<String>,
    expected_size: Option<u64>,
) -> (r: bool)
    ensures
        r == download_needs_hash(*size, text::maybe(*expected_md5), expected_size),
{
    expected_md5.is_some() && match expected_size {
        None => true,
        Some(_) => match size {
            Ok(actual) => size_mismatch(*actual, expected_size).is_none(),
            Err(_) => false,
        },
    }
}

/// Whether an outcome is that of verifying a downloaded file, with the line
/// that is shown for it.
pub open spec fn is_verification(
    r: Result<(PartVerification, Option<Line>), IaGetError>,
    size: Result<u64, IaGetError>,
    hash: Result<String, IaGetError>,
    expected_md5: Option<Seq<char>>,
    expected_size: Option<u64>,
) -> bool {
    if expected_size is Some && size is Err {
        if size->Err_0 is Interrupted {
            r matches Err(stop) && stop is Interrupted
        } else {
            r matches Ok(pair) && (pair.0 matches PartVerification::Unreadable(reason) && reason@
                == size->Err_0.text()) && pair.1 is None
        }
    } else if expected_size is Some && mismatch(size->Ok_0, expected_size) is Some {
        r matches Ok(pair) && pair.0 is Mismatch && (pair.1 matches Some(line) && line@
            == wrong_size_line(size->Ok_0, expected_size->0))
    } else if expected_md5 is None {
        r matches Ok(pair) && pair.0 is Valid && (pair.1 matches Some(line) && line@
            == verified_line(None))
    } else {
        match hash {
            Err(e) => if e is Interrupted {
                r matches Err(stop) && stop is Interrupted
            } else {
                r matches Ok(pair) && (pair.0 matches PartVerification::Unreadable(reason)
                    && reason@ == e.text()) && pair.1 is None
            },
            Ok(local) => if text::lowered(local@) == text::lowered(expected_md5->0) {
                r matches Ok(pair) && pair.0 is Valid && (pair.1 matches Some(line) && line@
                    == verified_line(Some(local@)))
            } else {
                r matches Ok(pair) && pair.0 is Mismatch && (pair.1 matches Some(line) && line@
                    == wrong_hash_line(local@, expected_md5->0))
            },
        }
    }
}

/// Verifies a downloaded file by its size, then by its hash, with the line to
/// show. A request to stop ends it; a file that cannot be read back is not
/// wrong for that.
pub fn verify_part(
    size: &Result<u64, IaGetError>,
    hash: &Result<String, IaGetError>,
    expected_md5: &Option<String>,
    expected_size: Option<u64>,
) -> (r: Result<(PartVerification, Option<Line>), IaGetError>)
    ensures
        is_verification(r, *size, *hash, text::maybe(*expected_md5), expected_size),
{
    if let Some(wanted) = expected_size {
        match size {
            Err(e) => {
                return match e {
                    IaGetError::Interrupted => Err(IaGetError::Interrupted),
                    _ => Ok((PartVerification::Unreadable(e.to_text()), None)),
                };
            },
            Ok(actual) => {
                if size_mismatch(*actual, expected_size).is_some() {
                    let line = line_of_wrong_size(*actual, wanted);
                    return Ok((PartVerification::Mismatch, Some(line)));
                }
            },
        }
    }
    let expected = match expected_md5 {
        Some(expected) => expected,
        None => {
            return Ok((PartVerification::Valid, Some(print_verified_hash(None))));
        },
    };
    match hash {
        Err(e) => match e {
            IaGetError::Interrupted => Err(IaGetError::Interrupted),
            _ => Ok((PartVerification::Unreadable(e.to_text()), None)),
        },
        Ok(local) => if hash_matches(local, expected) {
            Ok((PartVerification::Valid, Some(print_verified_hash(Some(local)))))
        } else {
            Ok((PartVerification::Mismatch, Some(line_of_wrong_hash(local, expected))))
        },
    }
}

/// A downloaded file that is found right has the expected size and hash, as
/// far as they are known.
pub proof fn valid_downloads_match(
    r: Result<(PartVerification, Option<Line>), IaGetError>,
    size: Result<u64, IaGetError>,
    hash: Result<String, IaGetError>,
    expected_md5: Option<Seq<char>>,
    expected_size: Option<u64>,
)
    requires
        is_verification(r, size, hash, expected_md5, expected_size),
        r matches Ok(pair) && pair.0 is Valid,
    ensures
        expected_size is Some ==> (size matches Ok(actual) && actual == expected_size->0),
        expected_md5 is Some ==> (hash matches Ok(local) && text::lowered(local@) == text::lowered(
            expected_md5->0,
        )),
{
}

// ---------------------------------------------------------------------------
// What verifying promises
// ---------------------------------------------------------------------------

/// The number that a hexadecimal digit in lower case stands for.
pub open spec fn digit_value(c: char) -> int {
    if '0' <= c <= '9' {
        c as int - '0' as int
    } else {
        c as int - 'a' as int + 10
    }
}

proof fn lemma_hex_digit(value: nat)
    requires
        value < 16,
    ensures
        digit_value(hex_digit(value)) == value,
        '0' <= hex_digit(value) <= '9' || 'a' <= hex_digit(value) <= 'f',
{
}

/// A hash is written in lower-case hexadecimal digits, of which the two for a
/// byte give its high half and then its low one.
pub proof fn hashes_are_written_in_hexadecimal(bytes: Seq<u8>, i: int)
    requires
        0 <= i < bytes.len(),
    ensures
        hex(bytes).len() == 2 * bytes.len(),
        digit_value(hex(bytes)[2 * i]) * 16 + digit_value(hex(bytes)[2 * i + 1]) == bytes[i],
        '0' <= hex(bytes)[2 * i] <= '9' || 'a' <= hex(bytes)[2 * i] <= 'f',
        '0' <= hex(bytes)[2 * i + 1] <= '9' || 'a' <= hex(bytes)[2 * i + 1] <= 'f',
    decreases bytes.len(),
{
    hex_has_two_digits_per_byte(bytes);
    hex_has_two_digits_per_byte(bytes.drop_last());
    if i < bytes.len() - 1 {
        hashes_are_written_in_hexadecimal(bytes.drop_last(), i);
        assert(hex(bytes)[2 * i] == hex(bytes.drop_last())[2 * i]);
        assert(hex(bytes)[2 * i + 1] == hex(bytes.drop_last())[2 * i + 1]);
    } else {
        lemma_hex_digit((bytes.last() / 16) as nat);
        lemma_hex_digit((bytes.last() % 16) as nat);
    }
}

/// Whether a size is the one expected, where one is.
pub open spec fn has_expected_size(size: Result<u64, IaGetError>, expected_size: Option<u64>) -> bool {
    expected_size is None || (size is Ok && size->Ok_0 == expected_size->0)
}

/// Whether a hash is the one expected, where one is; the case of its letters
/// does not count.
pub open spec fn has_expected_hash(
    hash: Result<String, IaGetError>,
    expected_md5: Option<Seq<char>>,
) -> bool {
    expected_md5 is None || (hash is Ok && text::lowered(hash->Ok_0@) == text::lowered(
        expected_md5->0,
    ))
}

/// Whether reading gave a result of its own that is not the one expected.
pub open spec fn is_found_wrong(
    size: Result<u64, IaGetError>,
    hash: Result<String, IaGetError>,
    expected_md5: Option<Seq<char>>,
    expected_size: Option<u64>,
) -> bool {
    ||| expected_size is Some && size is Ok && size->Ok_0 != expected_size->0
    ||| has_expected_size(size, expected_size) && expected_md5 is Some && hash is Ok
        && text::lowered(hash->Ok_0@) != text::lowered(expected_md5->0)
}

/// The copy that is there counts as right exactly where it is a regular file
/// of the expected size and hash, as far as those are known; as wrong exactly
/// where it was read and differs; as missing exactly where nothing is there.
/// Only the user's request while it is hashed ends the check early.
pub proof fn copies_are_judged_by_size_and_hash(
    r: Result<ExistingFileStatus, IaGetError>,
    state: PathState,
    size: Result<u64, IaGetError>,
    hash: Result<String, IaGetError>,
    expected_md5: Option<Seq<char>>,
    expected_size: Option<u64>,
)
    requires
        is_existing_status(r, state, size, hash, expected_md5, expected_size),
    ensures
        (r is Ok && r->Ok_0 is Verified) <==> (state is Regular && has_expected_size(
            size,
            expected_size,
        ) && has_expected_hash(hash, expected_md5)),
        (r is Ok && r->Ok_0 is Invalid) <==> (state is Regular && is_found_wrong(
            size,
            hash,
            expected_md5,
            expected_size,
        )),
        (r is Ok && r->Ok_0 is Missing) <==> state is NotFound,
        r is Err <==> (state is Regular && has_expected_size(size, expected_size) && expected_md5
            is Some && hash is Err && hash->Err_0 is Interrupted),
        r matches Err(e) ==> e is Interrupted,
        (r matches Ok(status) && (status matches ExistingFileStatus::Verified { md5 } && (
        expected_md5 is Some <==> md5 is Some) && (md5 is Some ==> md5->0@ == hash->Ok_0@))) || !(r
            is Ok && r->Ok_0 is Verified),
        state matches PathState::Unreadable(said) ==> (r matches Ok(status) && (status
            matches ExistingFileStatus::Unreadable(reason) && said@.len() <= reason@.len()
            && reason@.skip(reason@.len() - said@.len()) == said@)),
        (state is Regular && expected_size is Some && size is Err) ==> (r matches Ok(status) && (
        status matches ExistingFileStatus::Unreadable(reason) && size->Err_0.text().len()
            <= reason@.len() && reason@.skip(reason@.len() - size->Err_0.text().len())
            == size->Err_0.text())),
        existing_needs_hash(state, size, expected_md5, expected_size) <==> (state is Regular
            && expected_md5 is Some && has_expected_size(size, expected_size)),
{
    if let PathState::Unreadable(said) = state {
        let first = "could not read file: "@;
        assert((first + said@).skip(first.len() as int) =~= said@);
    }
    if let Err(e) = size {
        let first = "could not read file size: "@;
        assert((first + e.text()).skip(first.len() as int) =~= e.text());
    }
}

/// A downloaded file is valid exactly where it has the expected size and
/// hash, as far as those are known; a mismatch exactly where it was read and
/// differs. Only the user's request ends the verification early; any other
/// failure to read is given in the system's words.
pub proof fn downloads_are_judged_by_size_and_hash(
    r: Result<(PartVerification, Option<Line>), IaGetError>,
    size: Result<u64, IaGetError>,
    hash: Result<String, IaGetError>,
    expected_md5: Option<Seq<char>>,
    expected_size: Option<u64>,
)
    requires
        is_verification(r, size, hash, expected_md5, expected_size),
    ensures
        (r is Ok && r->Ok_0.0 is Valid) <==> (has_expected_size(size, expected_size)
            && has_expected_hash(hash, expected_md5)),
        (r is Ok && r->Ok_0.0 is Mismatch) <==> is_found_wrong(
            size,
            hash,
            expected_md5,
            expected_size,
        ),
        r is Err <==> ((expected_size is Some && size is Err && size->Err_0 is Interrupted) || (
        has_expected_size(size, expected_size) && expected_md5 is Some && hash is Err
            && hash->Err_0 is Interrupted)),
        r matches Err(e) ==> e is Interrupted,
        (r is Ok && r->Ok_0.0 is Unreadable) ==> (if expected_size is Some && size is Err {
            r->Ok_0.0->Unreadable_0@ == size->Err_0.text()
        } else {
            r->Ok_0.0->Unreadable_0@ == hash->Err_0.text()
        }),
        r is Ok ==> (r->Ok_0.1 is None <==> r->Ok_0.0 is Unreadable),
        download_needs_hash(size, expected_md5, expected_size) <==> (expected_md5 is Some
            && has_expected_size(size, expected_size)),
{
}

/// The line for a verified file names its hash where it was checked; that
/// for a wrong one names what was found and then what was expected.
pub proof fn verification_lines_name_what_was_found(
    local: Seq<char>,
    expected: Seq<char>,
    actual_size: u64,
    expected_size: u64,
)
    ensures
        verified_line(Some(local)).last().0 == seq!['('] + local + seq![')'],
        verified_line(Some(local))[4].0 == "✔"@,
        forall|k: int|
            0 <= k < verified_line(None).len() ==> (#[trigger] verified_line(None)[k]).0 != "✔"@
                && verified_line(None)[k].0 != "✘"@,
        wrong_hash_line(local, expected)[4].0 == "✘"@,
        wrong_hash_line(local, expected)[6].0 == local,
        wrong_hash_line(local, expected)[8].0 == expected,
        wrong_size_line(actual_size, expected_size)[4].0 == "✘"@,
        wrong_size_line(actual_size, expected_size)[6].0 == display::size_words(
            actual_size as nat,
        ),
        wrong_size_line(actual_size, expected_size)[8].0 == display::size_words(
            expected_size as nat,
        ),
        mismatch(actual_size, Some(expected_size)) is None <==> actual_size == expected_size,
        mismatch(actual_size, Some(expected_size)) matches Some(pair) ==> pair == (
            actual_size,
            expected_size,
        ),
        mismatch(actual_size, None) is None,
{
    reveal_strlit("(");
    reveal_strlit(")");
    reveal_strlit("✔");
    reveal_strlit("✘");
    reveal_strlit("-");
    reveal_strlit(" ");
    reveal_strlit("No MD5 hash provided for verification.");
    assert("("@ =~= seq!['(']);
    assert(")"@ =~= seq![')']);
    assert("✔"@[0] == '✔');
    assert("✘"@[0] == '✘');
    assert("-"@[0] == '-');
    assert(" "@[0] == ' ');
    assert("No MD5 hash provided for verification."@[0] == 'N');
}

} // verus!
