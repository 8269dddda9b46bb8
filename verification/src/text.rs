//! Text as sequences of characters: splitting, joining, trimming, and the
//! decimal numbers that headers and messages carry.

use vstd::prelude::*;

verus! {

/// Appending one character to a `String`: its text grows by that character
/// at the end (`String::push`).
pub assume_specification[ String::push ](string: &mut String, ch: char)
    ensures
        final(string)@ == old(string)@.push(ch),
;

/// What a string reads, where there is one.
pub open spec fn maybe(text: Option<String>) -> Option<Seq<char>> {
    match text {
        Some(t) => Some(t@),
        None => None,
    }
}

/// What each string of a list reads.
pub open spec fn texts(list: Seq<String>) -> Seq<Seq<char>> {
    list.map_values(|text: String| text@)
}

/// What each character row of a list reads.
pub open spec fn rows(list: Seq<Vec<char>>) -> Seq<Seq<char>> {
    list.map_values(|row: Vec<char>| row@)
}

// ---------------------------------------------------------------------------
// Character classes
// ---------------------------------------------------------------------------

/// The characters of Unicode's White_Space property.
pub open spec fn is_space(c: char) -> bool {
    let code = c as u32;
    ||| 0x09 <= code <= 0x0d
    ||| code == 0x20
    ||| code == 0x85
    ||| code == 0xa0
    ||| code == 0x1680
    ||| 0x2000 <= code <= 0x200a
    ||| code == 0x2028
    ||| code == 0x2029
    ||| code == 0x202f
    ||| code == 0x205f
    ||| code == 0x3000
}

/// Whether a character is white space.
pub fn is_whitespace(c: char) -> (r: bool)
    ensures
        r == is_space(c),
{
    let code: u32 = c as u32;
    (0x09 <= code && code <= 0x0d) || code == 0x20 || code == 0x85 || code == 0xa0 || code == 0x1680
        || (0x2000 <= code && code <= 0x200a) || code == 0x2028 || code == 0x2029 || code == 0x202f
        || code == 0x205f || code == 0x3000
}

/// An ASCII decimal digit.
pub open spec fn is_digit(c: char) -> bool {
    0x30 <= c as u32 <= 0x39
}

/// An ASCII letter or digit.
pub open spec fn is_alphanumeric(c: char) -> bool {
    let code = c as u32;
    0x30 <= code <= 0x39 || 0x41 <= code <= 0x5a || 0x61 <= code <= 0x7a
}

/// Whether a character is an ASCII letter or digit.
pub fn is_ascii_alphanumeric(c: char) -> (r: bool)
    ensures
        r == is_alphanumeric(c),
{
    let code: u32 = c as u32;
    (0x30 <= code && code <= 0x39) || (0x41 <= code && code <= 0x5a) || (0x61 <= code && code
        <= 0x7a)
}

/// A character with ASCII letters in lower case.
pub open spec fn lower(c: char) -> char {
    let code = c as u32;
    if 0x41 <= code <= 0x5a {
        (code + 0x20) as char
    } else {
        c
    }
}

/// A character with ASCII letters in lower case.
pub fn to_lower(c: char) -> (r: char)
    ensures
        r == lower(c),
{
    let code: u32 = c as u32;
    if 0x41 <= code && code <= 0x5a {
        ((code + 0x20) as u8) as char
    } else {
        c
    }
}

/// A text with its ASCII letters in lower case.
pub open spec fn lowered(s: Seq<char>) -> Seq<char> {
    s.map_values(|c: char| lower(c))
}

/// The sets of characters that texts are trimmed of.
#[derive(Clone, Copy, PartialEq, Eq, Structural)]
pub enum Trim {
    Space,
    SpaceOrDot,
    Slash,
    /// Either path separator.
    Separator,
    Dot,
}

impl Trim {
    /// Whether the set holds `c`.
    pub open spec fn has(self, c: char) -> bool {
        match self {
            Trim::Space => is_space(c),
            Trim::SpaceOrDot => is_space(c) || c == '.',
            Trim::Slash => c == '/',
            Trim::Separator => c == '/' || c == '\\',
            Trim::Dot => c == '.',
        }
    }

    /// Whether the set holds `c`.
    pub fn holds(self, c: char) -> (r: bool)
        ensures
            r == self.has(c),
    {
        match self {
            Trim::Space => is_whitespace(c),
            Trim::SpaceOrDot => is_whitespace(c) || c == '.',
            Trim::Slash => c == '/',
            Trim::Separator => c == '/' || c == '\\',
            Trim::Dot => c == '.',
        }
    }
}

// ---------------------------------------------------------------------------
// Between `str` and characters
// ---------------------------------------------------------------------------

/// The characters of a text, in order.
pub fn chars_of(text: &str) -> (chars: Vec<char>)
    ensures
        chars@ == text@,
{
    let mut chars: Vec<char> = Vec::new();
    for c in it: text.chars()
        invariant
            chars@ == text@.take(it.index()),
            it.seq() == text@,
    {
        chars.push(c);
        assert(text@.take(it.index() + 1) =~= text@.take(it.index()).push(c));
    }
    assert(text@.take(text@.len() as int) =~= text@);
    chars
}

/// The text made of the given characters.
pub fn text_of(chars: &Vec<char>) -> (text: String)
    ensures
        text@ == chars@,
{
    let text = text_between(chars, 0, chars.len());
    assert(chars@.subrange(0, chars@.len() as int) =~= chars@);
    text
}

/// The text made of the characters from `from` up to, not including, `to`.
pub fn text_between(chars: &Vec<char>, from: usize, to: usize) -> (text: String)
    requires
        from <= to <= chars.len(),
    ensures
        text@ == chars@.subrange(from as int, to as int),
{
    let mut text = String::new();
    let mut i: usize = from;
    while i < to
        invariant
            from <= i <= to <= chars.len(),
            text@ == chars@.subrange(from as int, i as int),
        decreases to - i,
    {
        text.push(chars[i]);
        assert(chars@.subrange(from as int, i + 1) =~= chars@.subrange(from as int, i as int).push(
            chars@[i as int],
        ));
        i += 1;
    }
    text
}

/// The characters from `from` up to, not including, `to`.
pub fn chars_between(chars: &Vec<char>, from: usize, to: usize) -> (part: Vec<char>)
    requires
        from <= to <= chars.len(),
    ensures
        part@ == chars@.subrange(from as int, to as int),
{
    let mut part: Vec<char> = Vec::new();
    let mut i: usize = from;
    while i < to
        invariant
            from <= i <= to <= chars.len(),
            part@ == chars@.subrange(from as int, i as int),
        decreases to - i,
    {
        part.push(chars[i]);
        assert(chars@.subrange(from as int, i + 1) =~= chars@.subrange(from as int, i as int).push(
            chars@[i as int],
        ));
        i += 1;
    }
    part
}

/// Appends characters to a row.
pub fn push_chars(row: &mut Vec<char>, more: &Vec<char>)
    ensures
        final(row)@ == old(row)@ + more@,
{
    let mut i: usize = 0;
    while i < more.len()
        invariant
            i <= more.len(),
            row@ == old(row)@ + more@.take(i as int),
        decreases more.len() - i,
    {
        row.push(more[i]);
        assert(more@.take(i + 1) =~= more@.take(i as int).push(more@[i as int]));
        i += 1;
    }
    assert(more@.take(more@.len() as int) =~= more@);
}

/// Whether two texts are the same.
pub fn same(a: &str, b: &str) -> (r: bool)
    ensures
        r == (a@ == b@),
{
    let left = a.to_owned();
    let right = b.to_owned();
    left == right
}

/// Whether two rows of characters are the same.
pub fn same_chars(a: &Vec<char>, b: &Vec<char>) -> (r: bool)
    ensures
        r == (a@ == b@),
{
    if a.len() != b.len() {
        return false;
    }
    let mut i: usize = 0;
    while i < a.len()
        invariant
            i <= a.len() == b.len(),
            forall|k: int| 0 <= k < i ==> a@[k] == b@[k],
        decreases a.len() - i,
    {
        if a[i] != b[i] {
            return false;
        }
        i += 1;
    }
    assert(a@ =~= b@);
    true
}

/// Whether a row of characters reads `expected`.
pub fn is_text(row: &Vec<char>, expected: &str) -> (r: bool)
    ensures
        r == (row@ == expected@),
{
    same_chars(row, &chars_of(expected))
}

/// Two texts, one after the other.
pub fn concat(a: &str, b: &str) -> (r: String)
    ensures
        r@ == a@ + b@,
{
    let mut r = a.to_owned();
    r.append(b);
    r
}

// ---------------------------------------------------------------------------
// Trimming
// ---------------------------------------------------------------------------

/// `s` without the characters of `set` that it starts with.
pub open spec fn trim_front(s: Seq<char>, set: Trim) -> Seq<char>
    decreases s.len(),
{
    if s.len() > 0 && set.has(s.first()) {
        trim_front(s.skip(1), set)
    } else {
        s
    }
}

/// `s` without the characters of `set` that it ends with.
pub open spec fn trim_back(s: Seq<char>, set: Trim) -> Seq<char>
    decreases s.len(),
{
    if s.len() > 0 && set.has(s.last()) {
        trim_back(s.drop_last(), set)
    } else {
        s
    }
}

/// `s` without the characters of `set` at either end.
pub open spec fn trim(s: Seq<char>, set: Trim) -> Seq<char> {
    trim_back(trim_front(s, set), set)
}

/// A text trimmed at the front neither starts with a character of the set
/// nor loses anything else.
pub proof fn lemma_trim_front(s: Seq<char>, set: Trim)
    ensures
        trim_front(s, set).len() <= s.len(),
        trim_front(s, set) == s.skip(s.len() - trim_front(s, set).len()),
        trim_front(s, set).len() > 0 ==> !set.has(trim_front(s, set).first()),
        trim_front(s, set).len() > 0 ==> trim_front(s, set).last() == s.last(),
    decreases s.len(),
{
    if s.len() > 0 && set.has(s.first()) {
        lemma_trim_front(s.skip(1), set);
        let t = trim_front(s, set);
        assert(s.skip(1).skip(s.len() - 1 - t.len()) =~= s.skip(s.len() - t.len()));
    } else {
        assert(s.skip(0) =~= s);
    }
}

/// A text trimmed at the back neither ends with a character of the set nor
/// loses anything else.
pub proof fn lemma_trim_back(s: Seq<char>, set: Trim)
    ensures
        trim_back(s, set).len() <= s.len(),
        trim_back(s, set) == s.take(trim_back(s, set).len() as int),
        trim_back(s, set).len() > 0 ==> !set.has(trim_back(s, set).last()),
        trim_back(s, set).len() > 0 ==> trim_back(s, set).first() == s.first(),
    decreases s.len(),
{
    if s.len() > 0 && set.has(s.last()) {
        lemma_trim_back(s.drop_last(), set);
        let t = trim_back(s, set);
        assert(s.drop_last().take(t.len() as int) =~= s.take(t.len() as int));
    } else {
        assert(s.take(s.len() as int) =~= s);
    }
}

/// How many characters of `set` the row starts with.
fn leading(chars: &Vec<char>, set: Trim) -> (n: usize)
    ensures
        n <= chars.len(),
        chars@.skip(n as int) == trim_front(chars@, set),
{
    let mut i: usize = 0;
    assert(chars@.skip(0) =~= chars@);
    while i < chars.len() && set.holds(chars[i])
        invariant
            i <= chars.len(),
            trim_front(chars@.skip(i as int), set) == trim_front(chars@, set),
        decreases chars.len() - i,
    {
        assert(chars@.skip(i as int).skip(1) =~= chars@.skip(i + 1));
        i += 1;
    }
    i
}

/// The row without the characters of `set` that it starts with.
pub fn trim_start(chars: &Vec<char>, set: Trim) -> (r: Vec<char>)
    ensures
        r@ == trim_front(chars@, set),
{
    let n: usize = leading(chars, set);
    chars_between(chars, n, chars.len())
}

/// The row without the characters of `set` that it ends with.
pub fn trim_end(chars: &Vec<char>, set: Trim) -> (r: Vec<char>)
    ensures
        r@ == trim_back(chars@, set),
{
    let mut n: usize = chars.len();
    assert(chars@.take(n as int) =~= chars@);
    while n > 0 && set.holds(chars[n - 1])
        invariant
            n <= chars.len(),
            trim_back(chars@.take(n as int), set) == trim_back(chars@, set),
        decreases n,
    {
        assert(chars@.take(n as int).drop_last() =~= chars@.take(n - 1));
        n -= 1;
    }
    chars_between(chars, 0, n)
}

/// The row without the characters of `set` at either end.
pub fn trim_both(chars: &Vec<char>, set: Trim) -> (r: Vec<char>)
    ensures
        r@ == trim(chars@, set),
{
    trim_end(&trim_start(chars, set), set)
}

/// The text without the characters of `set` at either end.
pub fn trim_text(text: &str, set: Trim) -> (r: String)
    ensures
        r@ == trim(text@, set),
{
    text_of(&trim_both(&chars_of(text), set))
}

// ---------------------------------------------------------------------------
// Splitting and joining
// ---------------------------------------------------------------------------

/// The pieces of `s` between the separators: one more than there are
/// separators.
pub open spec fn split(s: Seq<char>, sep: char) -> Seq<Seq<char>>
    decreases s.len(),
{
    if s.len() == 0 {
        seq![Seq::<char>::empty()]
    } else {
        let before = split(s.drop_last(), sep);
        if s.last() == sep {
            before.push(Seq::<char>::empty())
        } else {
            before.drop_last().push(before.last().push(s.last()))
        }
    }
}

/// The pieces one after the other, with `sep` between them.
pub open spec fn join(parts: Seq<Seq<char>>, sep: Seq<char>) -> Seq<char>
    decreases parts.len(),
{
    if parts.len() == 0 {
        Seq::empty()
    } else if parts.len() == 1 {
        parts[0]
    } else {
        join(parts.drop_last(), sep) + sep + parts.last()
    }
}

/// There is always a piece, and no piece holds the separator.
pub proof fn lemma_split_pieces(s: Seq<char>, sep: char)
    ensures
        split(s, sep).len() >= 1,
        forall|i: int| 0 <= i < split(s, sep).len() ==> !(#[trigger] split(s, sep)[i]).contains(sep),
    decreases s.len(),
{
    if s.len() > 0 {
        lemma_split_pieces(s.drop_last(), sep);
        let before = split(s.drop_last(), sep);
        assert forall|i: int| 0 <= i < split(s, sep).len() implies !(#[trigger] split(
            s,
            sep,
        )[i]).contains(sep) by {
            if s.last() != sep && i == before.len() - 1 {
                let piece = before.last().push(s.last());
                assert(!before[i].contains(sep));
                assert forall|k: int| 0 <= k < piece.len() implies piece[k] != sep by {
                    if k < before.last().len() {
                        assert(before.last().contains(before.last()[k]));
                    }
                }
            } else if i < before.len() {
                assert(!before[i].contains(sep));
            }
        }
    }
}

/// Joining the pieces gives the text back.
pub proof fn lemma_join_split(s: Seq<char>, sep: char)
    ensures
        join(split(s, sep), seq![sep]) == s,
    decreases s.len(),
{
    if s.len() > 0 {
        lemma_join_split(s.drop_last(), sep);
        lemma_split_pieces(s.drop_last(), sep);
        let before = split(s.drop_last(), sep);
        if s.last() == sep {
            assert(split(s, sep).drop_last() =~= before);
            assert(s =~= s.drop_last() + seq![sep] + Seq::<char>::empty());
        } else {
            assert(split(s, sep).drop_last() =~= before.drop_last());
            assert(s =~= s.drop_last().push(s.last()));
            if before.len() == 1 {
                assert(split(s, sep)[0] =~= s);
            } else {
                assert(join(before.drop_last(), seq![sep]) + seq![sep] + before.last().push(s.last())
                    =~= (join(before.drop_last(), seq![sep]) + seq![sep] + before.last()).push(
                    s.last(),
                ));
            }
        }
    }
}

/// A text without the separator is one piece.
pub proof fn lemma_split_whole(s: Seq<char>, sep: char)
    requires
        !s.contains(sep),
    ensures
        split(s, sep) == seq![s],
    decreases s.len(),
{
    if s.len() > 0 {
        assert(s.contains(s.last()));
        assert forall|k: int| 0 <= k < s.drop_last().len() implies s.drop_last()[k] != sep by {
            assert(s.contains(s[k]));
        }
        lemma_split_whole(s.drop_last(), sep);
        assert(s.drop_last().push(s.last()) =~= s);
        assert(split(s, sep) =~= seq![s]);
    } else {
        assert(s =~= Seq::<char>::empty());
    }
}

/// A last piece without the separator splits off.
pub proof fn lemma_split_append(a: Seq<char>, b: Seq<char>, sep: char)
    requires
        !b.contains(sep),
    ensures
        split(a + seq![sep] + b, sep) == split(a, sep).push(b),
    decreases b.len(),
{
    let s = a + seq![sep] + b;
    if b.len() == 0 {
        assert(s.drop_last() =~= a);
        assert(b =~= Seq::<char>::empty());
    } else {
        assert(b.contains(b.last()));
        assert forall|k: int| 0 <= k < b.drop_last().len() implies b.drop_last()[k] != sep by {
            assert(b.contains(b[k]));
        }
        lemma_split_append(a, b.drop_last(), sep);
        assert(s.drop_last() =~= a + seq![sep] + b.drop_last());
        assert(b.drop_last().push(b.last()) =~= b);
        assert(split(s, sep) =~= split(a, sep).push(b));
    }
}

/// Pieces without the separator come back from splitting what they join to.
pub proof fn lemma_split_join(parts: Seq<Seq<char>>, sep: char)
    requires
        parts.len() >= 1,
        forall|i: int| 0 <= i < parts.len() ==> !(#[trigger] parts[i]).contains(sep),
    ensures
        split(join(parts, seq![sep]), sep) == parts,
    decreases parts.len(),
{
    if parts.len() == 1 {
        lemma_split_whole(parts[0], sep);
        assert(seq![parts[0]] =~= parts);
    } else {
        assert forall|i: int| 0 <= i < parts.drop_last().len() implies !(
        #[trigger] parts.drop_last()[i]).contains(sep) by {
            assert(!parts[i].contains(sep));
        }
        lemma_split_join(parts.drop_last(), sep);
        lemma_split_append(join(parts.drop_last(), seq![sep]), parts.last(), sep);
        assert(parts.drop_last().push(parts.last()) =~= parts);
    }
}

/// The pieces of a row between the separators.
pub fn split_chars(chars: &Vec<char>, sep: char) -> (parts: Vec<Vec<char>>)
    ensures
        rows(parts@) == split(chars@, sep),
{
    let mut parts: Vec<Vec<char>> = Vec::new();
    let mut current: Vec<char> = Vec::new();
    let mut i: usize = 0;
    assert(rows(parts@).push(current@) =~= split(chars@.take(0), sep));
    while i < chars.len()
        invariant
            i <= chars.len(),
            rows(parts@).push(current@) == split(chars@.take(i as int), sep),
        decreases chars.len() - i,
    {
        let c = chars[i];
        let ghost before = rows(parts@).push(current@);
        assert(chars@.take(i + 1).drop_last() =~= chars@.take(i as int));
        assert(before.drop_last() =~= rows(parts@));
        if c == sep {
            let ghost listed = parts@;
            parts.push(current);
            assert(rows(parts@) =~= before);
            current = Vec::new();
            assert(current@ =~= Seq::<char>::empty());
        } else {
            current.push(c);
        }
        i += 1;
    }
    assert(chars@.take(chars@.len() as int) =~= chars@);
    let ghost listed = parts@;
    let ghost last = current@;
    parts.push(current);
    assert(rows(parts@) =~= rows(listed).push(last));
    parts
}

// ---------------------------------------------------------------------------
// Searching
// ---------------------------------------------------------------------------

/// Where `c` first stands in `s`; the length of `s` where it does not.
pub open spec fn position(s: Seq<char>, c: char) -> int
    decreases s.len(),
{
    if s.len() == 0 || s.first() == c {
        0
    } else {
        1 + position(s.skip(1), c)
    }
}

/// What `position` says: no such character before, and it is there unless
/// the end was reached.
pub proof fn lemma_position(s: Seq<char>, c: char)
    ensures
        0 <= position(s, c) <= s.len(),
        forall|i: int| 0 <= i < position(s, c) ==> s[i] != c,
        position(s, c) < s.len() ==> s[position(s, c)] == c,
    decreases s.len(),
{
    if s.len() > 0 && s.first() != c {
        let rest = s.skip(1);
        lemma_position(rest, c);
        assert forall|i: int| 0 <= i < position(s, c) implies s[i] != c by {
            if i > 0 {
                assert(rest[i - 1] == s[i]);
            }
        }
        if position(s, c) < s.len() {
            assert(rest[position(rest, c)] == s[position(s, c)]);
        }
    }
}

/// The first place of `c`, or the length of the row.
pub fn find(chars: &Vec<char>, c: char) -> (at: usize)
    ensures
        at == position(chars@, c),
        at <= chars.len(),
{
    let mut i: usize = 0;
    assert(chars@.skip(0) =~= chars@);
    while i < chars.len() && chars[i] != c
        invariant
            i <= chars.len(),
            position(chars@, c) == i + position(chars@.skip(i as int), c),
        decreases chars.len() - i,
    {
        assert(chars@.skip(i as int).skip(1) =~= chars@.skip(i + 1));
        i += 1;
    }
    i
}

/// Whether a row starts with a text.
pub fn starts_with(chars: &Vec<char>, prefix: &str) -> (r: bool)
    ensures
        r == prefix@.is_prefix_of(chars@),
{
    let p = chars_of(prefix);
    if p.len() > chars.len() {
        return false;
    }
    let head = chars_between(chars, 0, p.len());
    same_chars(&p, &head)
}

/// Whether a row ends with a text.
pub fn ends_with(chars: &Vec<char>, suffix: &str) -> (r: bool)
    ensures
        r == suffix@.is_suffix_of(chars@),
{
    let p = chars_of(suffix);
    if p.len() > chars.len() {
        return false;
    }
    let tail = chars_between(chars, chars.len() - p.len(), chars.len());
    same_chars(&p, &tail)
}

/// Whether a text holds another as a part of it.
pub open spec fn holds_part(s: Seq<char>, part: Seq<char>) -> bool {
    exists|i: int| 0 <= i <= s.len() && part.is_prefix_of(#[trigger] s.skip(i))
}

/// Whether a text holds another as a part of it.
pub fn has_part(s: &str, part: &str) -> (r: bool)
    ensures
        r == holds_part(s@, part@),
{
    let chars = chars_of(s);
    let mut i: usize = 0;
    while i <= chars.len()
        invariant
            i <= chars.len() + 1,
            chars@ == s@,
            forall|k: int| 0 <= k < i ==> !part@.is_prefix_of(#[trigger] s@.skip(k)),
        decreases chars.len() + 1 - i,
    {
        let rest = chars_between(&chars, i, chars.len());
        assert(rest@ =~= s@.skip(i as int));
        if starts_with(&rest, part) {
            return true;
        }
        if i == chars.len() {
            assert(forall|k: int| 0 <= k <= s@.len() ==> !part@.is_prefix_of(#[trigger] s@.skip(k)));
            return false;
        }
        i += 1;
    }
    false
}

/// Whether a row holds a character.
pub fn has_char(chars: &Vec<char>, c: char) -> (r: bool)
    ensures
        r == chars@.contains(c),
{
    let at: usize = find(chars, c);
    proof {
        lemma_position(chars@, c);
        if at < chars@.len() {
            assert(chars@[at as int] == c);
        }
    }
    at < chars.len()
}

/// A row with its ASCII letters in lower case.
pub fn to_lower_all(chars: &Vec<char>) -> (r: Vec<char>)
    ensures
        r@ == lowered(chars@),
{
    let mut r: Vec<char> = Vec::new();
    let mut i: usize = 0;
    while i < chars.len()
        invariant
            i <= chars.len(),
            r@ == lowered(chars@.take(i as int)),
        decreases chars.len() - i,
    {
        r.push(to_lower(chars[i]));
        assert(r@ =~= lowered(chars@.take(i + 1)));
        i += 1;
    }
    assert(chars@.take(chars@.len() as int) =~= chars@);
    r
}

/// Whether two texts agree but for the case of ASCII letters.
pub fn same_ignoring_case(a: &str, b: &str) -> (r: bool)
    ensures
        r == (lowered(a@) == lowered(b@)),
{
    same_chars(&to_lower_all(&chars_of(a)), &to_lower_all(&chars_of(b)))
}

// ---------------------------------------------------------------------------
// Quoting
// ---------------------------------------------------------------------------

/// A text in quotes, with what would not show escaped, as `str`'s `Debug`
/// has it.
pub uninterp spec fn quoted(s: Seq<char>) -> Seq<char>;

/// A text in quotes (`str`'s `Debug`): the one named.
#[verifier::external_body]
pub(crate) fn quote(s: &str) -> (r: String)
    ensures
        r@ == quoted(s@),
{
    format!("{s:?}")
}

// ---------------------------------------------------------------------------
// Padding
// ---------------------------------------------------------------------------

/// `n` spaces.
pub open spec fn spaces(n: nat) -> Seq<char> {
    Seq::new(n, |i: int| ' ')
}

/// A text with spaces in front up to a width.
pub open spec fn pad_left(s: Seq<char>, width: nat) -> Seq<char> {
    if s.len() >= width {
        s
    } else {
        spaces((width - s.len()) as nat) + s
    }
}

/// Appends a text with spaces in front of it up to a width.
pub fn push_padded(out: &mut String, s: &str, width: usize)
    ensures
        final(out)@ == old(out)@ + pad_left(s@, width as nat),
{
    let len: usize = chars_of(s).len();
    if len < width {
        let mut i: usize = len;
        assert(old(out)@ + spaces(0) =~= old(out)@);
        while i < width
            invariant
                len <= i <= width,
                out@ == old(out)@ + spaces((i - len) as nat),
            decreases width - i,
        {
            out.push(' ');
            assert(out@ =~= old(out)@ + spaces((i + 1 - len) as nat));
            i += 1;
        }
    }
    out.append(s);
    assert(out@ =~= old(out)@ + pad_left(s@, width as nat));
}

// ---------------------------------------------------------------------------
// Numbers
// ---------------------------------------------------------------------------

/// The decimal digit for a number below ten.
pub open spec fn digit(value: nat) -> char {
    (0x30 + value) as char
}

/// A number in decimal digits.
pub open spec fn decimal(n: nat) -> Seq<char>
    decreases n,
{
    if n < 10 {
        seq![digit(n)]
    } else {
        decimal(n / 10).push(digit(n % 10))
    }
}

/// The number that decimal digits stand for.
pub open spec fn number(digits: Seq<char>) -> nat
    decreases digits.len(),
{
    if digits.len() == 0 {
        0
    } else {
        number(digits.drop_last()) * 10 + (digits.last() as u32 - 0x30) as nat
    }
}

/// Decimal digits and nothing else.
pub open spec fn all_digits(s: Seq<char>) -> bool {
    forall|i: int| 0 <= i < s.len() ==> is_digit(#[trigger] s[i])
}

/// The number that a text reads as: decimal digits, at least one, with an
/// optional plus sign in front.
pub open spec fn unsigned(s: Seq<char>) -> Option<nat> {
    let digits = if s.len() > 0 && s.first() == '+' {
        s.skip(1)
    } else {
        s
    };
    if digits.len() > 0 && all_digits(digits) {
        Some(number(digits))
    } else {
        None
    }
}

/// Writing a number and reading it gives the number.
pub proof fn reading_a_written_number(n: nat)
    ensures
        unsigned(decimal(n)) == Some(n),
{
    lemma_decimal(n);
    let s = decimal(n);
    assert(is_digit(s[0]));
}

/// The digits of a number: all decimal, at least one, and standing for it.
pub proof fn lemma_decimal(n: nat)
    ensures
        decimal(n).len() >= 1,
        all_digits(decimal(n)),
        number(decimal(n)) == n,
    decreases n,
{
    if n < 10 {
        assert(decimal(n).drop_last() =~= Seq::empty());
        assert(number(Seq::empty()) == 0);
    } else {
        lemma_decimal(n / 10);
        assert(decimal(n).drop_last() =~= decimal(n / 10));
        assert forall|i: int| 0 <= i < decimal(n).len() implies is_digit(
            #[trigger] decimal(n)[i],
        ) by {
            if i < decimal(n / 10).len() {
                assert(is_digit(decimal(n / 10)[i]));
            }
        }
    }
}

/// More digits make no smaller number.
proof fn lemma_number_grows(digits: Seq<char>, i: int)
    requires
        0 <= i <= digits.len(),
    ensures
        number(digits.take(i)) <= number(digits),
    decreases digits.len(),
{
    if i == digits.len() {
        assert(digits.take(i) =~= digits);
    } else {
        lemma_number_grows(digits.drop_last(), i);
        assert(digits.drop_last().take(i) =~= digits.take(i));
    }
}

/// Appends a number in decimal digits.
pub fn push_decimal(out: &mut String, n: u64)
    ensures
        final(out)@ == old(out)@ + decimal(n as nat),
    decreases n,
{
    if n >= 10 {
        push_decimal(out, n / 10);
    }
    let ghost before = out@;
    out.push((0x30u8 + (n % 10) as u8) as char);
    assert(out@ =~= old(out)@ + decimal(n as nat));
}

/// A number in decimal digits.
pub fn decimal_text(n: u64) -> (r: String)
    ensures
        r@ == decimal(n as nat),
{
    let mut r = String::new();
    push_decimal(&mut r, n);
    assert(r@ =~= decimal(n as nat));
    r
}

/// The number that a row reads as, where it fits 64 bits.
pub fn parse_u64(chars: &Vec<char>) -> (r: Option<u64>)
    ensures
        match r {
            Some(n) => unsigned(chars@) == Some(n as nat),
            None => match unsigned(chars@) {
                Some(n) => n > u64::MAX,
                None => true,
            },
        },
{
    let digits = if chars.len() > 0 && chars[0] == '+' {
        chars_between(chars, 1, chars.len())
    } else {
        chars_between(chars, 0, chars.len())
    };
    proof {
        assert(chars@.subrange(0, chars@.len() as int) =~= chars@);
        if chars@.len() > 0 {
            assert(chars@.subrange(1, chars@.len() as int) =~= chars@.skip(1));
        }
    }
    if digits.len() == 0 {
        return None;
    }
    let mut value: u64 = 0;
    let mut i: usize = 0;
    while i < digits.len()
        invariant
            i <= digits.len(),
            forall|k: int| 0 <= k < i ==> is_digit(#[trigger] digits@[k]),
            value == number(digits@.take(i as int)),
            digits@.len() > 0,
            digits@ == (if chars@.len() > 0 && chars@.first() == '+' {
                chars@.skip(1)
            } else {
                chars@
            }),
        decreases digits.len() - i,
    {
        let code: u32 = digits[i] as u32;
        if code < 0x30 || code > 0x39 {
            return None;
        }
        proof {
            assert(digits@.take(i + 1).drop_last() =~= digits@.take(i as int));
            lemma_number_grows(digits@, i + 1);
        }
        let wide: u128 = value as u128 * 10 + (code - 0x30) as u128;
        if wide > u64::MAX as u128 {
            return None;
        }
        value = wide as u64;
        i += 1;
    }
    assert(digits@.take(digits@.len() as int) =~= digits@);
    Some(value)
}

// ---------------------------------------------------------------------------
// What texts promise
// ---------------------------------------------------------------------------

/// Trimming the front takes the run of the set's characters there.
pub proof fn lemma_trim_front_run(run: Seq<char>, rest: Seq<char>, set: Trim)
    requires
        forall|i: int| 0 <= i < run.len() ==> set.has(#[trigger] run[i]),
        rest.len() > 0 ==> !set.has(rest.first()),
    ensures
        trim_front(run + rest, set) == rest,
    decreases run.len(),
{
    if run.len() == 0 {
        assert(run + rest =~= rest);
    } else {
        assert((run + rest).first() == run[0]);
        assert((run + rest).skip(1) =~= run.skip(1) + rest);
        lemma_trim_front_run(run.skip(1), rest, set);
    }
}

/// Trimming the end takes the run of the set's characters there.
pub proof fn lemma_trim_back_run(rest: Seq<char>, run: Seq<char>, set: Trim)
    requires
        forall|i: int| 0 <= i < run.len() ==> set.has(#[trigger] run[i]),
        rest.len() > 0 ==> !set.has(rest.last()),
    ensures
        trim_back(rest + run, set) == rest,
    decreases run.len(),
{
    if run.len() == 0 {
        assert(rest + run =~= rest);
    } else {
        assert((rest + run).last() == run[run.len() - 1]);
        assert((rest + run).drop_last() =~= rest + run.drop_last());
        lemma_trim_back_run(rest, run.drop_last(), set);
    }
}

/// Trimming takes what the set holds at either end, and nothing else: what
/// stands between is left as it is.
pub proof fn trimming_leaves_the_middle(
    front: Seq<char>,
    middle: Seq<char>,
    back: Seq<char>,
    set: Trim,
)
    requires
        forall|i: int| 0 <= i < front.len() ==> set.has(#[trigger] front[i]),
        forall|i: int| 0 <= i < back.len() ==> set.has(#[trigger] back[i]),
        middle.len() > 0 ==> !set.has(middle.first()) && !set.has(middle.last()),
    ensures
        trim(front + middle + back, set) == middle,
        trim_front(front + middle, set) == middle,
        trim_back(middle + back, set) == middle,
{
    lemma_trim_front_run(front, middle, set);
    lemma_trim_back_run(middle, back, set);
    if middle.len() > 0 {
        assert(front + middle + back =~= front + (middle + back));
        lemma_trim_front_run(front, middle + back, set);
    } else {
        let run = front + back;
        assert(front + middle + back =~= run + middle);
        assert forall|i: int| 0 <= i < run.len() implies set.has(#[trigger] run[i]) by {
            if i < front.len() {
                assert(run[i] == front[i]);
            } else {
                assert(run[i] == back[i - front.len()]);
            }
        }
        lemma_trim_front_run(run, middle, set);
        assert(trim_back(middle, set) == middle);
    }
}

/// A text without such characters at its ends is trimmed to itself.
pub proof fn trimmed_texts_stay(s: Seq<char>, set: Trim)
    requires
        s.len() > 0 ==> !set.has(s.first()) && !set.has(s.last()),
    ensures
        trim(s, set) == s,
{
    let none = Seq::<char>::empty();
    trimming_leaves_the_middle(none, s, none, set);
    assert(none + s + none =~= s);
}

/// What is trimmed as white space: the blank, the line and paragraph
/// separators and the other spaces of Unicode, and no visible character of
/// ASCII among them.
pub proof fn white_space_is_that_of_unicode(c: char)
    ensures
        Trim::Space.has(c) <==> (c == ' ' || c == '\t' || c == '\n' || c == '\r' || c == '\u{b}'
            || c == '\u{c}' || c == '\u{85}' || c == '\u{a0}' || c == '\u{1680}' || ('\u{2000}'
            <= c <= '\u{200a}') || c == '\u{2028}' || c == '\u{2029}' || c == '\u{202f}' || c
            == '\u{205f}' || c == '\u{3000}'),
        Trim::SpaceOrDot.has(c) <==> Trim::Space.has(c) || c == '.',
        Trim::Slash.has(c) <==> c == '/',
        Trim::Separator.has(c) <==> c == '/' || c == '\\',
        Trim::Dot.has(c) <==> c == '.',
{
}

proof fn lemma_capital(c: char)
    ensures
        'A' <= c <= 'Z' ==> lower(c) as u32 == c as u32 + 32,
        !('A' <= c <= 'Z') ==> lower(c) == c,
{
}

proof fn lemma_digit_char(c: char)
    ensures
        is_digit(c) <==> '0' <= c <= '9',
{
}

/// Lower case changes the capitals of ASCII, each to its small letter, and
/// nothing else; it keeps the length.
pub proof fn lower_case_changes_capitals_alone(s: Seq<char>)
    ensures
        lowered(s).len() == s.len(),
        forall|i: int|
            0 <= i < s.len() ==> (if 'A' <= #[trigger] s[i] <= 'Z' {
                lowered(s)[i] as u32 == s[i] as u32 + 32
            } else {
                lowered(s)[i] == s[i]
            }),
        lowered(lowered(s)) == lowered(s),
{
    assert forall|i: int| 0 <= i < s.len() implies (if 'A' <= #[trigger] s[i] <= 'Z' {
        lowered(s)[i] as u32 == s[i] as u32 + 32
    } else {
        lowered(s)[i] == s[i]
    }) by {
        assert(lowered(s)[i] == lower(s[i]));
        lemma_capital(s[i]);
    }
    assert(lowered(lowered(s)) =~= lowered(s)) by {
        assert forall|i: int| 0 <= i < s.len() implies #[trigger] lowered(lowered(s))[i]
            == lowered(s)[i] by {
            assert(lowered(s)[i] == lower(s[i]));
        }
    }
}

/// Joining two lists is joining each, with the separator between.
pub proof fn joining_goes_piece_by_piece(
    a: Seq<Seq<char>>,
    b: Seq<Seq<char>>,
    sep: Seq<char>,
)
    requires
        a.len() > 0,
        b.len() > 0,
    ensures
        join(a + b, sep) == join(a, sep) + sep + join(b, sep),
        a.len() == 1 ==> join(a, sep) == a[0],
    decreases b.len(),
{
    if b.len() == 1 {
        assert((a + b).drop_last() =~= a);
    } else {
        joining_goes_piece_by_piece(a, b.drop_last(), sep);
        assert((a + b).drop_last() =~= a + b.drop_last());
        assert(join(a + b, sep) =~= join(a, sep) + sep + join(b, sep));
    }
}

/// A padded text ends with the text, has spaces alone in front, and is as
/// wide as was asked for, or as the text where that is wider.
pub proof fn padding_fills_in_front(s: Seq<char>, width: nat)
    ensures
        pad_left(s, width).len() == (if s.len() >= width {
            s.len()
        } else {
            width
        }),
        s.is_suffix_of(pad_left(s, width)),
        forall|i: int|
            0 <= i < pad_left(s, width).len() - s.len() ==> #[trigger] pad_left(s, width)[i] == ' ',
{
    let r = pad_left(s, width);
    assert(r.subrange(r.len() - s.len(), r.len() as int) =~= s);
}

/// Zeros in front of a number, and a plus sign in front of all, change
/// nothing; a text with anything but digits behind the sign is no number.
pub proof fn numbers_are_read_in_decimal(n: nat, s: Seq<char>)
    ensures
        unsigned(decimal(n)) == Some(n),
        unsigned(s) matches Some(m) ==> unsigned(seq!['0'] + s) == unsigned(s) || s.first() == '+',
        s.len() > 0 && s.first() != '+' ==> unsigned(seq!['+'] + s) == unsigned(s),
        unsigned(s) is Some <==> (s.len() > 0 && forall|i: int|
            0 <= i < s.len() ==> ('0' <= #[trigger] s[i] <= '9')) || (s.len() > 1 && s[0] == '+'
            && forall|i: int| 1 <= i < s.len() ==> ('0' <= #[trigger] s[i] <= '9')),
{
    reading_a_written_number(n);
    if s.len() > 0 {
        assert((seq!['+'] + s).skip(1) =~= s);
        let rest = s.skip(1);
        assert forall|i: int| 1 <= i < s.len() implies rest[i - 1] == #[trigger] s[i] by {}
        if s.first() != '+' {
            let zero = seq!['0'] + s;
            lemma_leading_zero(s);
            if all_digits(s) {
                assert forall|i: int| 0 <= i < zero.len() implies is_digit(#[trigger] zero[i]) by {
                    if i > 0 {
                        assert(is_digit(s[i - 1]));
                    }
                }
            }
        }
        if s.len() > 1 && s[0] == '+' && (forall|i: int|
            1 <= i < s.len() ==> ('0' <= #[trigger] s[i] <= '9')) {
            assert forall|i: int| 0 <= i < rest.len() implies is_digit(#[trigger] rest[i]) by {
                assert('0' <= s[i + 1] <= '9');
                lemma_digit_char(s[i + 1]);
            }
        }
        if s.first() == '+' && unsigned(s) is Some {
            assert forall|i: int| 1 <= i < s.len() implies ('0' <= #[trigger] s[i] <= '9') by {
                assert(is_digit(rest[i - 1]));
                lemma_digit_char(s[i]);
            }
        }
        if s.first() != '+' && unsigned(s) is Some {
            assert forall|i: int| 0 <= i < s.len() implies ('0' <= #[trigger] s[i] <= '9') by {
                assert(is_digit(s[i]));
                lemma_digit_char(s[i]);
            }
        }
        if (forall|i: int| 0 <= i < s.len() ==> ('0' <= #[trigger] s[i] <= '9')) {
            assert forall|i: int| 0 <= i < s.len() implies is_digit(#[trigger] s[i]) by {
                assert('0' <= s[i] <= '9');
                lemma_digit_char(s[i]);
            }
            assert('0' <= s[0] <= '9');
        }
    }
}

proof fn lemma_leading_zero(s: Seq<char>)
    ensures
        number(seq!['0'] + s) == number(s),
    decreases s.len(),
{
    let zero = seq!['0'] + s;
    if s.len() == 0 {
        assert(zero.drop_last() =~= Seq::<char>::empty());
        assert(number(zero.drop_last()) == 0);
    } else {
        lemma_leading_zero(s.drop_last());
        assert(zero.drop_last() =~= seq!['0'] + s.drop_last());
    }
}

/// A text holds another exactly where it is something, the other, and
/// something again.
pub proof fn held_texts_stand_between(before: Seq<char>, part: Seq<char>, after: Seq<char>, s: Seq<char>)
    ensures
        holds_part(before + part + after, part),
        holds_part(s, part) ==> exists|a: Seq<char>, b: Seq<char>| s == #[trigger] (a + part + b),
{
    let whole = before + part + after;
    assert(whole.skip(before.len() as int) =~= part + after);
    assert((part + after).take(part.len() as int) =~= part);
    assert(part.is_prefix_of(whole.skip(before.len() as int)));
    if holds_part(s, part) {
        let i = choose|i: int| 0 <= i <= s.len() && part.is_prefix_of(#[trigger] s.skip(i));
        let rest = s.skip(i);
        let a = s.take(i);
        let b = rest.skip(part.len() as int);
        assert(rest =~= part + b);
        assert(s =~= a + part + b);
    }
}

} // verus!
