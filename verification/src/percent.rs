//! Percent-encoding of file names into URL paths, and back.

use crate::text;
use vstd::prelude::*;
use vstd::utf8;

verus! {

/// The characters that stand for themselves in a URL path: RFC 3986's
/// unreserved ones.
pub open spec fn is_unreserved(c: char) -> bool {
    text::is_alphanumeric(c) || c == '-' || c == '_' || c == '.' || c == '~'
}

/// The hexadecimal digit for a number below sixteen.
pub open spec fn hex_digit(value: nat) -> char {
    if value < 10 {
        (0x30 + value) as char
    } else {
        (0x41 + value - 10) as char
    }
}

/// The number that a hexadecimal digit stands for, in either case.
pub open spec fn hex_value(byte: u8) -> Option<nat> {
    if 0x30 <= byte <= 0x39 {
        Some((byte - 0x30) as nat)
    } else if 0x41 <= byte <= 0x46 {
        Some((byte - 0x41 + 10) as nat)
    } else if 0x61 <= byte <= 0x66 {
        Some((byte - 0x61 + 10) as nat)
    } else {
        None
    }
}

/// A byte as an escape: a percent sign and two digits.
pub open spec fn escape(byte: u8) -> Seq<char> {
    seq!['%', hex_digit((byte / 16) as nat), hex_digit((byte % 16) as nat)]
}

/// Bytes as escapes.
pub open spec fn escapes(bytes: Seq<u8>) -> Seq<char>
    decreases bytes.len(),
{
    if bytes.len() == 0 {
        Seq::empty()
    } else {
        escapes(bytes.drop_last()) + escape(bytes.last())
    }
}

/// A character of a path: separators and unreserved characters as they are,
/// every other one as the escapes of its UTF-8 bytes.
pub open spec fn encoded_char(c: char) -> Seq<char> {
    if is_unreserved(c) || c == '/' {
        seq![c]
    } else {
        escapes(utf8::encode_utf8(seq![c]))
    }
}

/// A text with its characters encoded.
pub open spec fn encoded(s: Seq<char>) -> Seq<char>
    decreases s.len(),
{
    if s.len() == 0 {
        Seq::empty()
    } else {
        encoded(s.drop_last()) + encoded_char(s.last())
    }
}

/// A segment that a URL resolves away.
pub open spec fn is_dot_segment(segment: Seq<char>) -> bool {
    segment == "."@ || segment == ".."@
}

/// The encoded path that segments make, without dot segments and without
/// separators in front.
pub open spec fn encoded_segments(segments: Seq<Seq<char>>) -> Seq<char>
    decreases segments.len(),
{
    if segments.len() == 0 {
        Seq::empty()
    } else {
        let before = encoded_segments(segments.drop_last());
        if is_dot_segment(segments.last()) {
            before
        } else if before.len() == 0 {
            encoded(segments.last())
        } else {
            before + seq!['/'] + encoded(segments.last())
        }
    }
}

/// The encoded path of a file name.
pub open spec fn encoded_path(name: Seq<char>) -> Seq<char> {
    encoded_segments(text::split(name, '/'))
}

/// Bytes with their escapes read. A percent sign without two hexadecimal
/// digits behind it stands for itself.
pub open spec fn unescaped(bytes: Seq<u8>) -> Seq<u8>
    decreases bytes.len(),
{
    if bytes.len() == 0 {
        Seq::empty()
    } else if bytes[0] == 0x25 && bytes.len() >= 3 && hex_value(bytes[1]) is Some && hex_value(
        bytes[2],
    ) is Some {
        seq![(16 * hex_value(bytes[1])->0 + hex_value(bytes[2])->0) as u8] + unescaped(
            bytes.skip(3),
        )
    } else {
        seq![bytes[0]] + unescaped(bytes.skip(1))
    }
}

/// The text that a percent-encoded one stands for: nothing where its bytes
/// are not UTF-8.
pub open spec fn decoded(raw: Seq<char>) -> Option<Seq<char>> {
    let bytes = unescaped(utf8::encode_utf8(raw));
    if utf8::valid_utf8(bytes) {
        Some(utf8::decode_utf8(bytes))
    } else {
        None
    }
}

/// A file name that is stored under itself in a URL: no segment of it is
/// resolved away, and no separator stands in front.
pub open spec fn is_plain_name(name: Seq<char>) -> bool {
    &&& forall|i: int|
        0 <= i < text::split(name, '/').len() ==> !is_dot_segment(
            #[trigger] text::split(name, '/')[i],
        )
    &&& name.len() > 0
    &&& name.first() != '/'
}

// ---------------------------------------------------------------------------
// What encoding promises
// ---------------------------------------------------------------------------

/// The bytes of ASCII characters.
spec fn ascii(s: Seq<char>) -> Seq<u8> {
    s.map_values(|c: char| c as u8)
}

/// The characters that encoded text is made of.
pub open spec fn is_encoded_char(c: char) -> bool {
    is_unreserved(c) || c == '%' || c == '/'
}

proof fn lemma_hex(byte: u8)
    ensures
        ({
            let high = hex_digit((byte / 16) as nat);
            let low = hex_digit((byte % 16) as nat);
            &&& is_encoded_char(high)
            &&& is_encoded_char(low)
            &&& hex_value(high as u8) == Some((byte / 16) as nat)
            &&& hex_value(low as u8) == Some((byte % 16) as nat)
        }),
{
}

/// Texts encode one after the other.
pub proof fn lemma_encode_utf8_append(a: Seq<char>, b: Seq<char>)
    ensures
        utf8::encode_utf8(a + b) == utf8::encode_utf8(a) + utf8::encode_utf8(b),
    decreases a.len(),
{
    if a.len() == 0 {
        assert(a + b =~= b);
        assert(utf8::encode_utf8(a) =~= Seq::empty());
        assert(utf8::encode_utf8(a) + utf8::encode_utf8(b) =~= utf8::encode_utf8(b));
    } else {
        assert((a + b).drop_first() =~= a.drop_first() + b);
        lemma_encode_utf8_append(a.drop_first(), b);
        assert(utf8::encode_utf8(a + b) =~= utf8::encode_utf8(a) + utf8::encode_utf8(b));
    }
}

proof fn lemma_encoded_char_is_ascii(c: char)
    requires
        is_encoded_char(c),
    ensures
        '\0' <= c <= '\u{7f}',
{
}

proof fn lemma_ascii_bytes(s: Seq<char>)
    requires
        forall|i: int| 0 <= i < s.len() ==> is_encoded_char(#[trigger] s[i]),
    ensures
        utf8::encode_utf8(s) == ascii(s),
{
    assert(utf8::is_ascii_chars(s)) by {
        assert forall|i: int| 0 <= i < s.len() implies '\0' <= #[trigger] s[i] <= '\u{7f}' by {
            assert(is_encoded_char(s[i]));
            lemma_encoded_char_is_ascii(s[i]);
        }
    }
    utf8::is_ascii_chars_encode_utf8(s);
    assert(utf8::encode_utf8(s) =~= ascii(s));
}

proof fn lemma_escapes_chars(bytes: Seq<u8>)
    ensures
        escapes(bytes).len() == 3 * bytes.len(),
        forall|i: int| 0 <= i < escapes(bytes).len() ==> is_encoded_char(#[trigger] escapes(bytes)[i]),
        forall|i: int| 0 <= i < escapes(bytes).len() ==> (#[trigger] escapes(bytes)[i]) != '/',
    decreases bytes.len(),
{
    if bytes.len() > 0 {
        lemma_escapes_chars(bytes.drop_last());
        lemma_hex(bytes.last());
        let before = escapes(bytes.drop_last());
        assert forall|i: int| 0 <= i < escapes(bytes).len() implies is_encoded_char(
            #[trigger] escapes(bytes)[i],
        ) && escapes(bytes)[i] != '/' by {
            if i < before.len() {
                assert(escapes(bytes)[i] == before[i]);
            } else {
                assert(escapes(bytes)[i] == escape(bytes.last())[i - before.len()]);
            }
        }
    }
}

/// Encoded text holds nothing but unreserved characters, percent signs and
/// separators: nothing in it starts a query, a fragment, a host or a scheme.
pub proof fn encoded_text_is_inert(s: Seq<char>)
    ensures
        forall|i: int| 0 <= i < encoded(s).len() ==> is_encoded_char(#[trigger] encoded(s)[i]),
        encoded(s).len() >= s.len(),
    decreases s.len(),
{
    if s.len() > 0 {
        encoded_text_is_inert(s.drop_last());
        lemma_encoded_char(s.last());
        let before = encoded(s.drop_last());
        assert forall|i: int| 0 <= i < encoded(s).len() implies is_encoded_char(
            #[trigger] encoded(s)[i],
        ) by {
            if i < before.len() {
                assert(encoded(s)[i] == before[i]);
            } else {
                assert(encoded(s)[i] == encoded_char(s.last())[i - before.len()]);
            }
        }
    }
}

proof fn lemma_encoded_char(c: char)
    ensures
        encoded_char(c).len() >= 1,
        forall|i: int| 0 <= i < encoded_char(c).len() ==> is_encoded_char(#[trigger] encoded_char(c)[i]),
        c != '/' ==> !encoded_char(c).contains('/'),
{
    lemma_escapes_chars(utf8::encode_utf8(seq![c]));
    assert(utf8::encode_utf8(seq![c]) =~= utf8::encode_scalar(c as u32) + utf8::encode_utf8(
        seq![c].drop_first(),
    ));
    if !(is_unreserved(c) || c == '/') {
        let e = escapes(utf8::encode_utf8(seq![c]));
        assert forall|i: int| 0 <= i < encoded_char(c).len() implies is_encoded_char(
            #[trigger] encoded_char(c)[i],
        ) by {
            assert(is_encoded_char(e[i]));
        }
        if e.contains('/') {
            let i = choose|i: int| 0 <= i < e.len() && e[i] == '/';
            assert(e[i] != '/');
        }
    }
}

/// Escapes read back as the bytes they were made of.
proof fn lemma_unescape_escapes(bytes: Seq<u8>, rest: Seq<u8>)
    ensures
        unescaped(ascii(escapes(bytes)) + rest) == bytes + unescaped(rest),
    decreases bytes.len(),
{
    if bytes.len() == 0 {
        assert(ascii(escapes(bytes)) + rest =~= rest);
        assert(bytes + unescaped(rest) =~= unescaped(rest));
    } else {
        let last = bytes.last();
        lemma_hex(last);
        let tail = ascii(escape(last)) + rest;
        assert(tail.skip(3) =~= rest);
        assert(tail[0] == 0x25);
        assert(tail[1] == hex_digit((last / 16) as nat) as u8);
        assert(tail[2] == hex_digit((last % 16) as nat) as u8);
        assert(16 * (last / 16) + last % 16 == last);
        assert(unescaped(tail) =~= seq![last] + unescaped(rest));
        assert(ascii(escapes(bytes)) + rest =~= ascii(escapes(bytes.drop_last())) + tail);
        lemma_unescape_escapes(bytes.drop_last(), tail);
        assert(bytes.drop_last() + (seq![last] + unescaped(rest)) =~= bytes + unescaped(rest));
    }
}

proof fn lemma_unescape_char(c: char, rest: Seq<u8>)
    ensures
        unescaped(ascii(encoded_char(c)) + rest) == utf8::encode_utf8(seq![c]) + unescaped(rest),
{
    if is_unreserved(c) || c == '/' {
        lemma_ascii_bytes(seq![c]);
        let bytes = ascii(seq![c]) + rest;
        assert(bytes[0] == c as u8);
        assert(c as u8 != 0x25);
        assert(bytes.skip(1) =~= rest);
        assert(seq![bytes[0]] =~= ascii(seq![c]));
    } else {
        lemma_unescape_escapes(utf8::encode_utf8(seq![c]), rest);
    }
}

proof fn lemma_unescape_encoded(s: Seq<char>, rest: Seq<u8>)
    ensures
        unescaped(ascii(encoded(s)) + rest) == utf8::encode_utf8(s) + unescaped(rest),
    decreases s.len(),
{
    if s.len() == 0 {
        assert(ascii(encoded(s)) + rest =~= rest);
        assert(utf8::encode_utf8(s) =~= Seq::empty());
        assert(utf8::encode_utf8(s) + unescaped(rest) =~= unescaped(rest));
    } else {
        let head = s.drop_last();
        let last = seq![s.last()];
        let tail = ascii(encoded_char(s.last())) + rest;
        assert(ascii(encoded(s)) + rest =~= ascii(encoded(head)) + tail);
        lemma_unescape_encoded(head, tail);
        lemma_unescape_char(s.last(), rest);
        assert(s =~= head + last);
        lemma_encode_utf8_append(head, last);
        assert(utf8::encode_utf8(head) + (utf8::encode_utf8(last) + unescaped(rest))
            =~= utf8::encode_utf8(s) + unescaped(rest));
    }
}

/// Decoding gives back whatever was encoded.
pub proof fn decoding_inverts_encoding(s: Seq<char>)
    ensures
        decoded(encoded(s)) == Some(s),
{
    encoded_text_is_inert(s);
    lemma_ascii_bytes(encoded(s));
    lemma_unescape_encoded(s, Seq::empty());
    assert(ascii(encoded(s)) + Seq::<u8>::empty() =~= ascii(encoded(s)));
    assert(unescaped(Seq::empty()) =~= Seq::<u8>::empty());
    assert(utf8::encode_utf8(s) + Seq::<u8>::empty() =~= utf8::encode_utf8(s));
    utf8::encode_utf8_valid_utf8(s);
    utf8::encode_utf8_decode_utf8(s);
}

proof fn lemma_encoded_append(a: Seq<char>, b: Seq<char>)
    ensures
        encoded(a + b) == encoded(a) + encoded(b),
    decreases b.len(),
{
    if b.len() == 0 {
        assert(a + b =~= a);
        assert(encoded(a) + encoded(b) =~= encoded(a));
    } else {
        assert((a + b).drop_last() =~= a + b.drop_last());
        assert((a + b).last() == b.last());
        lemma_encoded_append(a, b.drop_last());
        assert(encoded(a) + encoded(b.drop_last()) + encoded_char(b.last()) =~= encoded(a) + encoded(
            b,
        ));
    }
}

proof fn lemma_encoded_separator()
    ensures
        encoded(seq!['/']) == seq!['/'],
{
    assert(seq!['/'].drop_last() =~= Seq::empty());
    assert(encoded(Seq::empty()) =~= Seq::empty());
    assert(encoded(seq!['/']) =~= seq!['/']);
}

proof fn lemma_encoded_segments_plain(segments: Seq<Seq<char>>)
    requires
        segments.len() >= 1,
        segments[0].len() > 0,
        forall|i: int| 0 <= i < segments.len() ==> !is_dot_segment(#[trigger] segments[i]),
    ensures
        encoded_segments(segments) == encoded(text::join(segments, seq!['/'])),
        encoded_segments(segments).len() > 0,
    decreases segments.len(),
{
    assert(!is_dot_segment(segments[segments.len() - 1]));
    encoded_text_is_inert(segments.last());
    if segments.len() == 1 {
        assert(segments.drop_last() =~= Seq::empty());
        assert(encoded_segments(segments.drop_last()) =~= Seq::empty());
    } else {
        let head = segments.drop_last();
        assert forall|i: int| 0 <= i < head.len() implies !is_dot_segment(#[trigger] head[i]) by {
            assert(!is_dot_segment(segments[i]));
        }
        lemma_encoded_segments_plain(head);
        lemma_encoded_append(text::join(head, seq!['/']), seq!['/']);
        lemma_encoded_append(text::join(head, seq!['/']) + seq!['/'], segments.last());
        lemma_encoded_separator();
    }
}

/// The path of a plain name is the name with its characters encoded.
pub proof fn lemma_plain_name_path(name: Seq<char>)
    requires
        is_plain_name(name),
    ensures
        encoded_path(name) == encoded(name),
        encoded_path(name).len() > 0,
{
    let segments = text::split(name, '/');
    text::lemma_split_pieces(name, '/');
    text::lemma_join_split(name, '/');
    if segments[0].len() == 0 {
        if segments.len() == 1 {
            assert(segments =~= seq![segments[0]]);
            assert(text::join(segments, seq!['/']) =~= segments[0]);
        } else {
            lemma_join_first(segments);
        }
        assert(false);
    }
    lemma_encoded_segments_plain(segments);
}

/// A joined text starts with the separator where its first piece is empty
/// and another follows.
proof fn lemma_join_first(segments: Seq<Seq<char>>)
    requires
        segments.len() >= 2,
        segments[0].len() == 0,
    ensures
        text::join(segments, seq!['/']).len() > 0,
        text::join(segments, seq!['/']).first() == '/',
    decreases segments.len(),
{
    let head = segments.drop_last();
    if segments.len() == 2 {
        assert(text::join(head, seq!['/']) =~= segments[0]);
    } else {
        lemma_join_first(head);
    }
}

/// Decoding the path of a plain file name gives the name back.
pub proof fn decoding_a_path_gives_the_name(name: Seq<char>)
    requires
        is_plain_name(name),
    ensures
        decoded(encoded_path(name)) == Some(name),
{
    lemma_plain_name_path(name);
    decoding_inverts_encoding(name);
}

/// The path of any name stays a relative reference below the directory that
/// it is resolved in: made of inert characters, with no separator in front,
/// and without dot segments.
pub proof fn encoded_path_stays_below(name: Seq<char>)
    ensures
        forall|i: int| 0 <= i < encoded_path(name).len() ==> is_encoded_char(#[trigger] encoded_path(name)[i]),
        encoded_path(name).len() > 0 ==> encoded_path(name).first() != '/',
        forall|i: int|
            0 <= i < text::split(encoded_path(name), '/').len() ==> !is_dot_segment(
                #[trigger] text::split(encoded_path(name), '/')[i],
            ),
{
    text::lemma_split_pieces(name, '/');
    lemma_encoded_segments_below(text::split(name, '/'));
}

proof fn lemma_segment_no_separator(segment: Seq<char>)
    requires
        !segment.contains('/'),
    ensures
        !encoded(segment).contains('/'),
    decreases segment.len(),
{
    if segment.len() > 0 {
        let head = segment.drop_last();
        assert forall|i: int| 0 <= i < head.len() implies head[i] != '/' by {
            assert(segment.contains(segment[i]));
        }
        assert(segment.contains(segment.last()));
        lemma_segment_no_separator(head);
        lemma_encoded_char(segment.last());
        if encoded(segment).contains('/') {
            let i = choose|i: int| 0 <= i < encoded(segment).len() && encoded(segment)[i] == '/';
            if i < encoded(head).len() {
                assert(encoded(head)[i] == '/');
            } else {
                assert(encoded_char(segment.last())[i - encoded(head).len()] == '/');
            }
        }
    }
}

proof fn lemma_encoded_dot(segment: Seq<char>)
    requires
        !is_dot_segment(segment),
    ensures
        !is_dot_segment(encoded(segment)),
{
    decoding_inverts_encoding(segment);
    reveal_strlit(".");
    reveal_strlit("..");
    let one = seq!['.'];
    let two = seq!['.', '.'];
    assert("."@ =~= one);
    assert(".."@ =~= two);
    assert(one.drop_last() =~= Seq::empty());
    assert(two.drop_last() =~= one);
    assert(encoded(Seq::empty()) =~= Seq::empty());
    assert(encoded(one) =~= one);
    assert(encoded(two) =~= two);
    decoding_inverts_encoding(one);
    decoding_inverts_encoding(two);
}

proof fn lemma_encoded_segments_below(segments: Seq<Seq<char>>)
    requires
        forall|i: int| 0 <= i < segments.len() ==> !(#[trigger] segments[i]).contains('/'),
    ensures
        forall|i: int|
            0 <= i < encoded_segments(segments).len() ==> is_encoded_char(
                #[trigger] encoded_segments(segments)[i],
            ),
        encoded_segments(segments).len() > 0 ==> encoded_segments(segments).first() != '/',
        forall|i: int|
            0 <= i < text::split(encoded_segments(segments), '/').len() ==> !is_dot_segment(
                #[trigger] text::split(encoded_segments(segments), '/')[i],
            ),
    decreases segments.len(),
{
    reveal_strlit(".");
    reveal_strlit("..");
    let whole = encoded_segments(segments);
    if segments.len() == 0 {
        assert(text::split(whole, '/') =~= seq![Seq::<char>::empty()]);
    } else {
        let head = segments.drop_last();
        let last = segments.last();
        assert forall|i: int| 0 <= i < head.len() implies !(#[trigger] head[i]).contains('/') by {
            assert(!segments[i].contains('/'));
        }
        assert(!segments[segments.len() - 1].contains('/'));
        lemma_encoded_segments_below(head);
        if !is_dot_segment(last) {
            let before = encoded_segments(head);
            lemma_segment_no_separator(last);
            lemma_encoded_dot(last);
            encoded_text_is_inert(last);
            if before.len() == 0 {
                text::lemma_split_whole(encoded(last), '/');
                if encoded(last).len() > 0 {
                    assert(encoded(last).contains(encoded(last).first()));
                }
            } else {
                text::lemma_split_append(before, encoded(last), '/');
                assert forall|i: int| 0 <= i < whole.len() implies is_encoded_char(
                    #[trigger] whole[i],
                ) by {
                    if i < before.len() {
                        assert(whole[i] == before[i]);
                    } else if i > before.len() {
                        assert(whole[i] == encoded(last)[i - before.len() - 1]);
                    }
                }
            }
        }
    }
}

/// A text without percent signs decodes to itself.
pub proof fn lemma_decode_without_escapes(s: Seq<char>)
    requires
        forall|i: int| 0 <= i < s.len() ==> #[trigger] s[i] != '%',
        forall|i: int| 0 <= i < s.len() ==> is_encoded_char(#[trigger] s[i]) || s[i] == '@',
    ensures
        decoded(s) == Some(s),
{
    assert(utf8::is_ascii_chars(s)) by {
        assert forall|i: int| 0 <= i < s.len() implies '\0' <= #[trigger] s[i] <= '\u{7f}' by {
            if s[i] != '@' {
                lemma_encoded_char_is_ascii(s[i]);
            }
        }
    }
    utf8::is_ascii_chars_encode_utf8(s);
    let bytes = utf8::encode_utf8(s);
    assert forall|i: int| 0 <= i < bytes.len() implies #[trigger] bytes[i] != 0x25 by {
        assert(s[i] as u8 == bytes[i]);
        if s[i] != '@' {
            lemma_encoded_char_is_ascii(s[i]);
        }
    }
    lemma_unescape_plain(bytes);
    utf8::encode_utf8_valid_utf8(s);
    utf8::encode_utf8_decode_utf8(s);
}

proof fn lemma_unescape_plain(bytes: Seq<u8>)
    requires
        forall|i: int| 0 <= i < bytes.len() ==> #[trigger] bytes[i] != 0x25,
    ensures
        unescaped(bytes) == bytes,
    decreases bytes.len(),
{
    if bytes.len() > 0 {
        assert(bytes[0] != 0x25);
        lemma_unescape_plain(bytes.skip(1));
        assert(seq![bytes[0]] + bytes.skip(1) =~= bytes);
    } else {
        assert(unescaped(bytes) =~= bytes);
    }
}

/// Every segment of an encoded path encodes a segment that is no dot
/// segment.
pub proof fn lemma_path_segments_decode(name: Seq<char>)
    ensures
        forall|i: int|
            0 <= i < text::split(encoded_path(name), '/').len() ==> exists|s: Seq<char>|
                !is_dot_segment(s) && #[trigger] text::split(encoded_path(name), '/')[i]
                    == #[trigger] encoded(s),
{
    text::lemma_split_pieces(name, '/');
    lemma_segments_decode(text::split(name, '/'));
}

proof fn lemma_segments_decode(segments: Seq<Seq<char>>)
    requires
        forall|i: int| 0 <= i < segments.len() ==> !(#[trigger] segments[i]).contains('/'),
    ensures
        forall|i: int|
            0 <= i < text::split(encoded_segments(segments), '/').len() ==> exists|s: Seq<char>|
                !is_dot_segment(s) && #[trigger] text::split(encoded_segments(segments), '/')[i]
                    == #[trigger] encoded(s),
    decreases segments.len(),
{
    reveal_strlit(".");
    reveal_strlit("..");
    let whole = encoded_segments(segments);
    let nothing = Seq::<char>::empty();
    if segments.len() == 0 {
        assert(text::split(whole, '/') =~= seq![nothing]);
        assert(encoded(nothing) =~= nothing);
    } else {
        let head = segments.drop_last();
        let last = segments.last();
        assert forall|i: int| 0 <= i < head.len() implies !(#[trigger] head[i]).contains('/') by {
            assert(!segments[i].contains('/'));
        }
        assert(!segments[segments.len() - 1].contains('/'));
        lemma_segments_decode(head);
        if !is_dot_segment(last) {
            let before = encoded_segments(head);
            lemma_segment_no_separator(last);
            if before.len() == 0 {
                text::lemma_split_whole(encoded(last), '/');
            } else {
                text::lemma_split_append(before, encoded(last), '/');
                let pieces = text::split(whole, '/');
                assert forall|i: int| 0 <= i < pieces.len() implies exists|s: Seq<char>|
                    !is_dot_segment(s) && #[trigger] pieces[i] == #[trigger] encoded(s) by {
                    if i < text::split(before, '/').len() {
                        assert(pieces[i] == text::split(before, '/')[i]);
                    } else {
                        assert(pieces[i] == encoded(last));
                    }
                }
            }
        }
    }
}

// ---------------------------------------------------------------------------
// Encoding and decoding
// ---------------------------------------------------------------------------

fn hex_char(value: u8) -> (c: char)
    requires
        value < 16,
    ensures
        c == hex_digit(value as nat),
{
    if value < 10 {
        (0x30 + value) as char
    } else {
        (0x41 + (value - 10)) as char
    }
}

fn push_encoded_char(out: &mut String, c: char)
    ensures
        final(out)@ == old(out)@ + encoded_char(c),
{
    if text::is_ascii_alphanumeric(c) || c == '-' || c == '_' || c == '.' || c == '~' || c == '/' {
        out.push(c);
        assert(out@ =~= old(out)@ + encoded_char(c));
        return;
    }
    let mut one = String::new();
    one.push(c);
    assert(one@ =~= seq![c]);
    let bytes = one.as_str().as_bytes();
    let mut i: usize = 0;
    assert(old(out)@ + escapes(bytes@.take(0)) =~= old(out)@);
    while i < bytes.len()
        invariant
            i <= bytes.len(),
            out@ == old(out)@ + escapes(bytes@.take(i as int)),
        decreases bytes.len() - i,
    {
        let byte: u8 = bytes[i];
        out.push('%');
        out.push(hex_char(byte / 16));
        out.push(hex_char(byte % 16));
        proof {
            assert(bytes@.take(i + 1).drop_last() =~= bytes@.take(i as int));
            assert(out@ =~= old(out)@ + escapes(bytes@.take(i + 1)));
        }
        i += 1;
    }
    assert(bytes@.take(bytes@.len() as int) =~= bytes@);
}

/// Percent-encodes every segment of a file name. Its separators stay, but
/// for those in front: the result is always a relative reference. Dot
/// segments, which a URL would resolve, are dropped.
#[must_use]
pub fn encode_download_path(name: &str) -> (r: String)
    ensures
        r@ == encoded_path(name@),
{
    let segments = text::split_chars(&text::chars_of(name), '/');
    let ghost pieces = text::split(name@, '/');
    let mut out = String::new();
    let mut out_is_empty = true;
    let mut i: usize = 0;
    assert(out@ =~= encoded_segments(pieces.take(0)));
    while i < segments.len()
        invariant
            i <= segments.len(),
            text::rows(segments@) == pieces,
            out@ == encoded_segments(pieces.take(i as int)),
            out_is_empty == (out@.len() == 0),
        decreases segments.len() - i,
    {
        let segment = &segments[i];
        proof {
            assert(segment@ == pieces[i as int]);
            assert(pieces.take(i + 1).drop_last() =~= pieces.take(i as int));
        }
        if !(text::is_text(segment, ".") || text::is_text(segment, "..")) {
            let ghost before = out@;
            if !out_is_empty {
                out.push('/');
            }
            let ghost start = out@;
            let mut k: usize = 0;
            assert(start + encoded(segment@.take(0)) =~= start);
            while k < segment.len()
                invariant
                    k <= segment.len(),
                    out@ == start + encoded(segment@.take(k as int)),
                    out_is_empty ==> start.len() == 0,
                decreases segment.len() - k,
            {
                push_encoded_char(&mut out, segment[k]);
                proof {
                    assert(segment@.take(k + 1).drop_last() =~= segment@.take(k as int));
                    assert(out@ =~= start + encoded(segment@.take(k + 1)));
                }
                k += 1;
            }
            proof {
                assert(segment@.take(segment@.len() as int) =~= segment@);
                encoded_text_is_inert(segment@);
                assert(before.push('/') =~= before + seq!['/']);
                assert(start + encoded(segment@) =~= encoded_segments(pieces.take(i + 1)));
                if segment@.len() == 0 {
                    assert(encoded(segment@) =~= Seq::empty());
                }
            }
            if segment.len() > 0 {
                out_is_empty = false;
            }
        }
        i += 1;
    }
    assert(pieces.take(pieces.len() as int) =~= pieces);
    out
}

/// Reading bytes as UTF-8 (`String::from_utf8`): the text they encode where
/// they are valid, nothing otherwise.
#[verifier::external_body]
fn text_from_utf8(bytes: Vec<u8>) -> (r: Option<String>)
    ensures
        match r {
            Some(s) => utf8::valid_utf8(bytes@) && s@ == utf8::decode_utf8(bytes@),
            None => !utf8::valid_utf8(bytes@),
        },
{
    String::from_utf8(bytes).ok()
}

fn hex_number(byte: u8) -> (r: Option<u8>)
    ensures
        match r {
            Some(v) => v < 16 && hex_value(byte) == Some(v as nat),
            None => hex_value(byte) is None,
        },
{
    if 0x30 <= byte && byte <= 0x39 {
        Some(byte - 0x30)
    } else if 0x41 <= byte && byte <= 0x46 {
        Some(byte - 0x41 + 10)
    } else if 0x61 <= byte && byte <= 0x66 {
        Some(byte - 0x61 + 10)
    } else {
        None
    }
}

/// The byte that an escape at `at` stands for, where there is one.
fn escape_at(bytes: &[u8], at: usize) -> (r: Option<u8>)
    requires
        at < bytes@.len(),
    ensures
        match r {
            Some(b) => at + 3 <= bytes@.len() && bytes@[at as int] == 0x25 && hex_value(
                bytes@[at + 1],
            ) is Some && hex_value(bytes@[at + 2]) is Some && b == 16 * hex_value(bytes@[at + 1])->0
                + hex_value(bytes@[at + 2])->0,
            None => !(bytes@[at as int] == 0x25 && at + 3 <= bytes@.len() && hex_value(
                bytes@[at + 1],
            ) is Some && hex_value(bytes@[at + 2]) is Some),
        },
{
    if bytes[at] != 0x25 || bytes.len() - at < 3 {
        return None;
    }
    match (hex_number(bytes[at + 1]), hex_number(bytes[at + 2])) {
        (Some(high), Some(low)) => Some(high * 16 + low),
        _ => None,
    }
}

/// Percent-decodes a path. An escape without two hexadecimal digits passes
/// through literally; bytes that are no UTF-8 name nothing.
pub fn percent_decode(raw: &str) -> (r: Option<String>)
    ensures
        match r {
            Some(s) => decoded(raw@) == Some(s@),
            None => decoded(raw@) is None,
        },
{
    let bytes = raw.as_bytes();
    let mut out: Vec<u8> = Vec::new();
    let mut i: usize = 0;
    proof {
        assert(bytes@.skip(0) =~= bytes@);
        assert(out@ + unescaped(bytes@) =~= unescaped(bytes@));
    }
    while i < bytes.len()
        invariant
            i <= bytes@.len(),
            bytes@ == utf8::encode_utf8(raw@),
            out@ + unescaped(bytes@.skip(i as int)) == unescaped(bytes@),
        decreases bytes@.len() - i,
    {
        let ghost rest = bytes@.skip(i as int);
        let ghost before = out@;
        match escape_at(bytes, i) {
            Some(byte) => {
                out.push(byte);
                proof {
                    assert(rest.skip(3) =~= bytes@.skip(i + 3));
                    assert(before + (seq![byte] + unescaped(bytes@.skip(i + 3))) =~= out@
                        + unescaped(bytes@.skip(i + 3)));
                }
                i += 3;
            },
            None => {
                let byte: u8 = bytes[i];
                out.push(byte);
                proof {
                    assert(rest.skip(1) =~= bytes@.skip(i + 1));
                    assert(before + (seq![byte] + unescaped(bytes@.skip(i + 1))) =~= out@
                        + unescaped(bytes@.skip(i + 1)));
                }
                i += 1;
            },
        }
    }
    proof {
        assert(bytes@.skip(i as int) =~= Seq::empty());
        assert(out@ + Seq::<u8>::empty() =~= out@);
    }
    text_from_utf8(out)
}

// ---------------------------------------------------------------------------
// What encoded text is made of
// ---------------------------------------------------------------------------

/// Letters and digits of ASCII, the four marks `-`, `_`, `.` and `~`, and the
/// separator stand for themselves; every other character of ASCII is a
/// percent sign and its two hexadecimal digits in upper case.
pub proof fn plain_characters_stand_for_themselves(c: char)
    ensures
        ('a' <= c <= 'z' || 'A' <= c <= 'Z' || '0' <= c <= '9' || c == '-' || c == '_' || c == '.'
            || c == '~' || c == '/') <==> encoded(seq![c]) == seq![c],
        c <= '\u{7f}' && encoded(seq![c]) != seq![c] ==> encoded(seq![c]).len() == 3 && encoded(
            seq![c],
        )[0] == '%' && is_upper_hex(encoded(seq![c])[1]) && is_upper_hex(encoded(seq![c])[2])
            && upper_hex_value(encoded(seq![c])[1]) * 16 + upper_hex_value(encoded(seq![c])[2])
            == c as int,
{
    lemma_single(c);
    let bytes = utf8::encode_utf8(seq![c]);
    if !(is_unreserved(c) || c == '/') {
        lemma_escapes_are_threes(bytes);
        utf8::encode_utf8_decode_utf8(seq![c]);
        if bytes.len() == 0 {
            assert(bytes =~= utf8::encode_utf8(Seq::<char>::empty()));
            utf8::encode_utf8_decode_utf8(Seq::<char>::empty());
            assert(seq![c].len() == 1);
        }
        assert(encoded(seq![c]).len() >= 3);
        if c <= '\u{7f}' {
            lemma_ascii_single(c);
            let byte = c as u8;
            assert(bytes =~= seq![byte]);
            assert(seq![byte].drop_last() =~= Seq::<u8>::empty());
            assert(escapes(Seq::<u8>::empty()) =~= Seq::<char>::empty());
            assert(escapes(bytes) =~= escape(byte));
            lemma_upper_hex((byte / 16) as nat);
            lemma_upper_hex((byte % 16) as nat);
        }
    }
}

/// The hexadecimal digits in upper case.
pub open spec fn is_upper_hex(c: char) -> bool {
    '0' <= c <= '9' || 'A' <= c <= 'F'
}

/// The number that a hexadecimal digit in upper case stands for.
pub open spec fn upper_hex_value(c: char) -> int {
    if '0' <= c <= '9' {
        c as int - '0' as int
    } else {
        c as int - 'A' as int + 10
    }
}

proof fn lemma_upper_hex(value: nat)
    requires
        value < 16,
    ensures
        is_upper_hex(hex_digit(value)),
        upper_hex_value(hex_digit(value)) == value,
{
}

proof fn lemma_single(c: char)
    ensures
        encoded(seq![c]) == encoded_char(c),
{
    assert(seq![c].drop_last() =~= Seq::<char>::empty());
    assert(encoded(Seq::<char>::empty()) =~= Seq::<char>::empty());
    assert(encoded(seq![c]) =~= encoded_char(c));
}

proof fn lemma_escapes_are_threes(bytes: Seq<u8>)
    ensures
        escapes(bytes).len() == 3 * bytes.len(),
    decreases bytes.len(),
{
    if bytes.len() > 0 {
        lemma_escapes_are_threes(bytes.drop_last());
    }
}

proof fn lemma_ascii_single(c: char)
    requires
        c <= '\u{7f}',
    ensures
        utf8::encode_utf8(seq![c]) == seq![c as u8],
{
    utf8::is_ascii_chars_encode_utf8(seq![c]);
    assert(utf8::encode_utf8(seq![c]) =~= seq![c as u8]);
}

/// A text encodes character by character, and a character that is no ASCII
/// as one escape for each of its bytes in UTF-8, in their order.
pub proof fn texts_encode_character_by_character(a: Seq<char>, b: Seq<char>, c: char, i: int)
    requires
        c >= '\u{80}',
        0 <= i < utf8::encode_utf8(seq![c]).len(),
    ensures
        encoded(a + b) == encoded(a) + encoded(b),
        ({
            let bytes = utf8::encode_utf8(seq![c]);
            let out = encoded(seq![c]);
            &&& out.len() == 3 * bytes.len()
            &&& out[3 * i] == '%'
            &&& is_upper_hex(out[3 * i + 1])
            &&& is_upper_hex(out[3 * i + 2])
            &&& upper_hex_value(out[3 * i + 1]) * 16 + upper_hex_value(out[3 * i + 2]) == bytes[i]
        }),
{
    lemma_encoded_append(a, b);
    lemma_single(c);
    lemma_escape_at(utf8::encode_utf8(seq![c]), i);
}

proof fn lemma_escape_at(bytes: Seq<u8>, i: int)
    requires
        0 <= i < bytes.len(),
    ensures
        escapes(bytes).len() == 3 * bytes.len(),
        escapes(bytes)[3 * i] == '%',
        is_upper_hex(escapes(bytes)[3 * i + 1]),
        is_upper_hex(escapes(bytes)[3 * i + 2]),
        upper_hex_value(escapes(bytes)[3 * i + 1]) * 16 + upper_hex_value(
            escapes(bytes)[3 * i + 2],
        ) == bytes[i],
    decreases bytes.len(),
{
    lemma_escapes_are_threes(bytes);
    lemma_escapes_are_threes(bytes.drop_last());
    let before = escapes(bytes.drop_last());
    if i < bytes.len() - 1 {
        lemma_escape_at(bytes.drop_last(), i);
        assert(escapes(bytes)[3 * i] == before[3 * i]);
        assert(escapes(bytes)[3 * i + 1] == before[3 * i + 1]);
        assert(escapes(bytes)[3 * i + 2] == before[3 * i + 2]);
    } else {
        let byte = bytes.last();
        lemma_upper_hex((byte / 16) as nat);
        lemma_upper_hex((byte % 16) as nat);
        assert(escapes(bytes)[3 * i] == escape(byte)[0]);
        assert(escapes(bytes)[3 * i + 1] == escape(byte)[1]);
        assert(escapes(bytes)[3 * i + 2] == escape(byte)[2]);
    }
}

/// The number that a byte stands for as a hexadecimal digit in either case;
/// none below zero.
pub open spec fn digit_of(byte: u8) -> int {
    if '0' as u8 <= byte <= '9' as u8 {
        byte as int - '0' as int
    } else if 'A' as u8 <= byte <= 'F' as u8 {
        byte as int - 'A' as int + 10
    } else if 'a' as u8 <= byte <= 'f' as u8 {
        byte as int - 'a' as int + 10
    } else {
        -1
    }
}

/// A percent sign with two hexadecimal digits, in either case, is read as the
/// byte that they write; one without, and every other byte, the plus sign
/// too, stands for itself.
pub proof fn escapes_are_read_in_either_case(high: u8, low: u8, byte: u8, rest: Seq<u8>)
    ensures
        digit_of(high) >= 0 && digit_of(low) >= 0 ==> unescaped(
            seq!['%' as u8, high, low] + rest,
        ) == seq![(digit_of(high) * 16 + digit_of(low)) as u8] + unescaped(rest),
        digit_of(high) < 0 || digit_of(low) < 0 ==> unescaped(seq!['%' as u8, high, low] + rest)
            == seq!['%' as u8] + unescaped(seq![high, low] + rest),
        byte != '%' as u8 ==> unescaped(seq![byte] + rest) == seq![byte] + unescaped(rest),
        rest.len() < 2 ==> unescaped(seq!['%' as u8] + rest) == seq!['%' as u8] + unescaped(rest),
        unescaped(Seq::empty()) == Seq::<u8>::empty(),
{
    let escape = seq!['%' as u8, high, low] + rest;
    assert(escape.skip(3) =~= rest);
    assert(escape.skip(1) =~= seq![high, low] + rest);
    assert(escape[1] == high && escape[2] == low);
    let plain = seq![byte] + rest;
    assert(plain[0] == byte);
    assert(plain.skip(1) =~= rest);
    let short = seq!['%' as u8] + rest;
    assert(short.skip(1) =~= rest);
}

/// The segments `.` and `..` are dropped from a path wherever they stand,
/// and so is an empty one in front.
pub proof fn dot_segments_are_dropped(
    a: Seq<Seq<char>>,
    dot: Seq<char>,
    b: Seq<Seq<char>>,
)
    requires
        dot == seq!['.'] || dot == seq!['.', '.'],
    ensures
        encoded_segments(a + seq![dot] + b) == encoded_segments(a + b),
        encoded_segments(seq![Seq::<char>::empty()] + b) == encoded_segments(b),
    decreases b.len(),
{
    reveal_strlit(".");
    reveal_strlit("..");
    assert("."@ =~= seq!['.']);
    assert(".."@ =~= seq!['.', '.']);
    let none = Seq::<char>::empty();
    if b.len() == 0 {
        assert(a + seq![dot] + b =~= a.push(dot));
        assert(a.push(dot).drop_last() =~= a);
        assert(a + b =~= a);
        assert(seq![none] + b =~= seq![none]);
        assert(seq![none].drop_last() =~= Seq::<Seq<char>>::empty());
        assert(encoded(none) =~= none);
        assert(encoded_segments(Seq::<Seq<char>>::empty()) =~= none);
        assert(b =~= Seq::<Seq<char>>::empty());
        assert(encoded_segments(seq![none]) =~= none);
    } else {
        dot_segments_are_dropped(a, dot, b.drop_last());
        assert((a + seq![dot] + b).drop_last() =~= a + seq![dot] + b.drop_last());
        assert((a + b).drop_last() =~= a + b.drop_last());
        assert((seq![none] + b).drop_last() =~= seq![none] + b.drop_last());
    }
}

/// A text stands for another exactly where its bytes, with the escapes read,
/// are those of the other; where they are those of none, it stands for
/// nothing.
pub proof fn decoded_texts_have_these_bytes(raw: Seq<char>, s: Seq<char>)
    ensures
        decoded(raw) == Some(s) <==> unescaped(utf8::encode_utf8(raw)) == utf8::encode_utf8(s),
        decoded(raw) is None ==> unescaped(utf8::encode_utf8(raw)) != utf8::encode_utf8(s),
{
    let bytes = unescaped(utf8::encode_utf8(raw));
    utf8::encode_utf8_valid_utf8(s);
    utf8::encode_utf8_decode_utf8(s);
    if utf8::valid_utf8(bytes) {
        utf8::decode_utf8_encode_utf8(bytes);
    }
}

} // verus!
