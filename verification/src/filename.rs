//! Making server-controlled file names fit for every file system: invalid
//! characters are replaced, edges trimmed, reserved device names marked, and
//! the components that could leave the working directory dropped.

use crate::text;
use crate::text::Trim;
use vstd::prelude::*;

verus! {

/// A superscript digit as the plain digit it opens a device with on Windows,
/// which reads "COM¹" as "COM1"; any other character as it is.
pub open spec fn plain_digit(c: char) -> char {
    match c {
        '¹' => '1',
        '²' => '2',
        '³' => '3',
        '⁴' => '4',
        '⁵' => '5',
        '⁶' => '6',
        '⁷' => '7',
        '⁸' => '8',
        '⁹' => '9',
        _ => c,
    }
}

/// A base name with plain digits.
pub open spec fn with_plain_digits(base: Seq<char>) -> Seq<char> {
    base.map_values(|c: char| plain_digit(c))
}

/// A base name as it is compared with the device names: plain digits, lower
/// case.
pub open spec fn folded(base: Seq<char>) -> Seq<char> {
    text::lowered(with_plain_digits(base))
}

/// The device names that Windows reserves, whatever their case.
pub open spec fn is_device(base: Seq<char>) -> bool {
    let name = folded(base);
    ||| name == "con"@
    ||| name == "prn"@
    ||| name == "aux"@
    ||| name == "nul"@
    ||| name == "conin$"@
    ||| name == "conout$"@
    ||| name == "clock$"@
    ||| name.len() == 4 && (name.take(3) == "com"@ || name.take(3) == "lpt"@) && '1' <= name[3]
        <= '9'
}

/// The characters that Windows or Unix reject in a file name.
pub open spec fn is_invalid(c: char) -> bool {
    ||| c == '<'
    ||| c == '>'
    ||| c == ':'
    ||| c == '"'
    ||| c == '|'
    ||| c == '?'
    ||| c == '*'
    ||| c == '\\'
    ||| c as u32 <= 0x1f
    ||| c as u32 == 0x7f
}

/// A component with each invalid character replaced by an underscore.
pub open spec fn replaced(component: Seq<char>) -> Seq<char> {
    component.map_values(
        |c: char|
            if is_invalid(c) {
                '_'
            } else {
                c
            },
    )
}

/// A component without the white space around it and the dots at its end.
pub open spec fn trimmed(component: Seq<char>) -> Seq<char> {
    text::trim_back(text::trim(component, Trim::Space), Trim::SpaceOrDot)
}

/// Where the base name of a component ends: at its first dot, or its end.
pub open spec fn base_len(component: Seq<char>) -> int {
    text::position(component, '.')
}

/// A component with an underscore behind its base name where that is a
/// device name.
pub open spec fn marked(component: Seq<char>) -> Seq<char> {
    let end = base_len(component);
    if is_device(component.take(end)) {
        component.insert(end, '_')
    } else {
        component
    }
}

/// What a non-empty component is stored as.
pub open spec fn clean_component(component: Seq<char>) -> Seq<char> {
    let bare = trimmed(replaced(component));
    marked(
        if bare.len() == 0 {
            seq!['_']
        } else {
            bare
        },
    )
}

/// A component that stays in a path: it names something below.
pub open spec fn names_entry(component: Seq<char>) -> bool {
    component.len() > 0 && component != "."@ && component != ".."@
}

/// The components of a path that name an entry.
pub open spec fn entries(components: Seq<Seq<char>>) -> Seq<Seq<char>> {
    components.filter(|component: Seq<char>| names_entry(component))
}

/// The clean form of each component.
pub open spec fn cleaned(components: Seq<Seq<char>>) -> Seq<Seq<char>> {
    components.map_values(|component: Seq<char>| clean_component(component))
}

/// The path that a file name is stored under.
pub open spec fn sanitized(name: Seq<char>) -> Seq<char> {
    text::join(cleaned(entries(text::split(name, '/'))), "/"@)
}

/// A component that every file system takes as it is: not empty, without
/// invalid characters or separators, without white space at either end or a
/// dot at the end (so neither `.` nor `..`), and not a device name.
pub open spec fn is_safe(component: Seq<char>) -> bool {
    &&& component.len() > 0
    &&& forall|i: int| 0 <= i < component.len() ==> !is_invalid(#[trigger] component[i])
    &&& !component.contains('/')
    &&& !text::is_space(component.first())
    &&& !text::is_space(component.last())
    &&& component.last() != '.'
    &&& !is_device(component.take(base_len(component)))
}

// ---------------------------------------------------------------------------
// What sanitizing promises
// ---------------------------------------------------------------------------

/// The base name's end is the only place with no dot before it and a dot or
/// the end behind it.
proof fn lemma_base_len_unique(component: Seq<char>, end: int)
    requires
        0 <= end <= component.len(),
        forall|i: int| 0 <= i < end ==> component[i] != '.',
        end < component.len() ==> component[end] == '.',
    ensures
        base_len(component) == end,
{
    text::lemma_position(component, '.');
    let other = base_len(component);
    if other < end {
        assert(component[other] != '.');
    }
    if end < other {
        assert(component[end] != '.');
    }
}

/// No device name has an underscore.
proof fn lemma_device_has_no_underscore(base: Seq<char>)
    requires
        base.contains('_'),
    ensures
        !is_device(base),
{
    let at = choose|i: int| 0 <= i < base.len() && base[i] == '_';
    let name = folded(base);
    assert(name[at] == '_');
    reveal_strlit("con");
    reveal_strlit("prn");
    reveal_strlit("aux");
    reveal_strlit("nul");
    reveal_strlit("conin$");
    reveal_strlit("conout$");
    reveal_strlit("clock$");
    reveal_strlit("com");
    reveal_strlit("lpt");
    if name.len() == 4 && (name.take(3) == "com"@ || name.take(3) == "lpt"@) && '1' <= name[3]
        <= '9' {
        if at < 3 {
            assert(name.take(3)[at] == '_');
        }
        assert(false);
    }
}

/// A stored component is safe.
pub proof fn lemma_clean_component_is_safe(component: Seq<char>)
    requires
        !component.contains('/'),
    ensures
        is_safe(clean_component(component)),
{
    let plain = replaced(component);
    assert forall|i: int| 0 <= i < plain.len() implies !is_invalid(#[trigger] plain[i]) && plain[i]
        != '/' by {
        assert(component.contains(component[i]));
    }
    let front = text::trim_front(plain, Trim::Space);
    let both = text::trim_back(front, Trim::Space);
    let bare = text::trim_back(both, Trim::SpaceOrDot);
    text::lemma_trim_front(plain, Trim::Space);
    text::lemma_trim_back(front, Trim::Space);
    text::lemma_trim_back(both, Trim::SpaceOrDot);
    assert forall|i: int| 0 <= i < bare.len() implies !is_invalid(#[trigger] bare[i]) && bare[i]
        != '/' by {
        let at = plain.len() - front.len() + i;
        assert(bare[i] == both[i]);
        assert(both[i] == front[i]);
        assert(front[i] == plain[at]);
    }
    let name = if bare.len() == 0 {
        seq!['_']
    } else {
        bare
    };
    assert forall|i: int| 0 <= i < name.len() implies !is_invalid(#[trigger] name[i]) && name[i]
        != '/' by {}
    assert(!text::is_space(name.first()));
    assert(!text::is_space(name.last()));
    assert(name.last() != '.');
    let end = base_len(name);
    text::lemma_position(name, '.');
    if is_device(name.take(end)) {
        let stored = name.insert(end, '_');
        assert forall|i: int| 0 <= i < stored.len() implies !is_invalid(#[trigger] stored[i])
            && stored[i] != '/' by {
            if i < end {
                assert(stored[i] == name[i]);
            } else if i > end {
                assert(stored[i] == name[i - 1]);
            }
        }
        assert forall|i: int| 0 <= i < end + 1 implies stored[i] != '.' by {
            if i < end {
                assert(stored[i] == name[i]);
            }
        }
        if end + 1 < stored.len() {
            assert(stored[end + 1] == name[end]);
        }
        lemma_base_len_unique(stored, end + 1);
        let base = stored.take(end + 1);
        assert(base[end] == '_');
        assert(base.contains('_'));
        lemma_device_has_no_underscore(base);
        assert(stored.first() == if end == 0 {
            '_'
        } else {
            name.first()
        });
        assert(stored.last() == if end == name.len() {
            '_'
        } else {
            name.last()
        });
    }
}

/// A safe component is stored as it is.
pub proof fn lemma_safe_component_is_kept(component: Seq<char>)
    requires
        is_safe(component),
    ensures
        clean_component(component) == component,
{
    assert(replaced(component) =~= component);
}

/// A safe component names an entry.
proof fn lemma_safe_names_entry(component: Seq<char>)
    requires
        is_safe(component),
    ensures
        names_entry(component),
{
    reveal_strlit(".");
    reveal_strlit("..");
}

proof fn lemma_all_entries(components: Seq<Seq<char>>)
    requires
        forall|i: int| 0 <= i < components.len() ==> names_entry(#[trigger] components[i]),
    ensures
        entries(components) == components,
    decreases components.len(),
{
    reveal(Seq::filter);
    if components.len() > 0 {
        assert forall|i: int| 0 <= i < components.drop_last().len() implies names_entry(
            #[trigger] components.drop_last()[i],
        ) by {
            assert(names_entry(components[i]));
        }
        lemma_all_entries(components.drop_last());
        assert(names_entry(components[components.len() - 1]));
        assert(components.drop_last().push(components.last()) =~= components);
    } else {
        assert(entries(components) =~= components);
    }
}

proof fn lemma_entries_shape(components: Seq<Seq<char>>)
    ensures
        entries(components).len() <= components.len(),
        entries(components).len() == components.len() ==> entries(components) == components,
        forall|i: int| 0 <= i < entries(components).len() ==> #[trigger] names_entry(
            entries(components)[i],
        ) && components.contains(entries(components)[i]),
    decreases components.len(),
{
    reveal(Seq::filter);
    if components.len() > 0 {
        let head = components.drop_last();
        lemma_entries_shape(head);
        let kept = entries(components);
        assert forall|i: int| 0 <= i < kept.len() implies #[trigger] names_entry(kept[i])
            && components.contains(kept[i]) by {
            if i < entries(head).len() {
                assert(kept[i] == entries(head)[i]);
                assert(names_entry(entries(head)[i]));
                let at = choose|k: int| 0 <= k < head.len() && head[k] == kept[i];
                assert(components[at] == kept[i]);
            } else {
                assert(components[components.len() - 1] == kept[i]);
            }
        }
        if kept.len() == components.len() {
            assert(components =~= head.push(components.last()));
        }
    } else {
        assert(entries(components) =~= components);
    }
}

/// The components of a path that sanitizing yields.
pub proof fn lemma_sanitized_components(name: Seq<char>)
    ensures
        sanitized(name).len() == 0 ==> entries(text::split(name, '/')).len() == 0,
        sanitized(name).len() > 0 ==> text::split(sanitized(name), '/') == cleaned(
            entries(text::split(name, '/')),
        ),
        forall|i: int|
            0 <= i < cleaned(entries(text::split(name, '/'))).len() ==> is_safe(
                #[trigger] cleaned(entries(text::split(name, '/')))[i],
            ),
{
    let components = text::split(name, '/');
    let kept = entries(components);
    let parts = cleaned(kept);
    text::lemma_split_pieces(name, '/');
    lemma_entries_shape(components);
    assert forall|i: int| 0 <= i < parts.len() implies is_safe(#[trigger] parts[i]) by {
        assert(names_entry(kept[i]));
        let at = choose|k: int| 0 <= k < components.len() && components[k] == kept[i];
        assert(!components[at].contains('/'));
        lemma_clean_component_is_safe(kept[i]);
    }
    reveal_strlit("/");
    assert("/"@ =~= seq!['/']);
    if parts.len() >= 1 {
        assert forall|i: int| 0 <= i < parts.len() implies !(#[trigger] parts[i]).contains('/') by {
            assert(is_safe(parts[i]));
        }
        text::lemma_split_join(parts, '/');
        assert(is_safe(parts[parts.len() - 1]));
        if parts.len() == 1 {
        } else {
            assert(text::join(parts, seq!['/']).len() >= parts.last().len());
        }
    }
}

/// Every component of a sanitized name is safe: no name can leave the
/// directory that it is put under, reach a device, or be refused by a file
/// system for its characters.
pub proof fn sanitized_components_are_safe(name: Seq<char>, i: int)
    requires
        sanitized(name).len() > 0,
        0 <= i < text::split(sanitized(name), '/').len(),
    ensures
        is_safe(text::split(sanitized(name), '/')[i]),
{
    lemma_sanitized_components(name);
}

/// A sanitized name is sanitized to itself.
pub proof fn sanitizing_is_idempotent(name: Seq<char>)
    ensures
        sanitized(sanitized(name)) == sanitized(name),
{
    lemma_sanitized_components(name);
    let once = sanitized(name);
    if once.len() == 0 {
        lemma_sanitized_components(once);
        assert(once =~= Seq::<char>::empty());
        assert(text::split(once, '/') =~= seq![Seq::<char>::empty()]);
        let parts = seq![Seq::<char>::empty()];
        lemma_entries_shape(parts);
        if entries(parts).len() > 0 {
            assert(names_entry(entries(parts)[0]));
        }
        assert(cleaned(entries(parts)).len() == 0);
    } else {
        let parts = text::split(once, '/');
        assert forall|i: int| 0 <= i < parts.len() implies names_entry(#[trigger] parts[i]) by {
            lemma_safe_names_entry(parts[i]);
        }
        lemma_all_entries(parts);
        assert forall|i: int| 0 <= i < parts.len() implies #[trigger] cleaned(parts)[i]
            == parts[i] by {
            assert(is_safe(cleaned(entries(text::split(name, '/')))[i]));
            lemma_safe_component_is_kept(parts[i]);
        }
        assert(cleaned(parts) =~= parts);
        reveal_strlit("/");
        assert("/"@ =~= seq!['/']);
        text::lemma_join_split(once, '/');
    }
}

// ---------------------------------------------------------------------------
// Sanitizing
// ---------------------------------------------------------------------------

fn fold_char(c: char) -> (r: char)
    ensures
        r == plain_digit(c),
{
    match c {
        '¹' => '1',
        '²' => '2',
        '³' => '3',
        '⁴' => '4',
        '⁵' => '5',
        '⁶' => '6',
        '⁷' => '7',
        '⁸' => '8',
        '⁹' => '9',
        _ => c,
    }
}

/// Normalizes a base name for the comparison with the device names: its
/// superscript digits become plain ones, and nothing else changes.
fn device_name_base(base: &Vec<char>) -> (r: Vec<char>)
    ensures
        r@ == with_plain_digits(base@),
{
    let mut r: Vec<char> = Vec::new();
    let mut i: usize = 0;
    while i < base.len()
        invariant
            i <= base.len(),
            r@ == with_plain_digits(base@.take(i as int)),
        decreases base.len() - i,
    {
        r.push(fold_char(base[i]));
        assert(r@ =~= with_plain_digits(base@.take(i + 1)));
        i += 1;
    }
    assert(base@.take(base@.len() as int) =~= base@);
    r
}

/// Whether a character is rejected in file names.
fn is_invalid_filename_char(c: char) -> (r: bool)
    ensures
        r == is_invalid(c),
{
    c == '<' || c == '>' || c == ':' || c == '"' || c == '|' || c == '?' || c == '*' || c == '\\'
        || c as u32 <= 0x1f || c as u32 == 0x7f
}

/// Replaces every invalid character of a component, and says whether there
/// was one.
fn replace_invalid_chars(component: &Vec<char>) -> (r: (Vec<char>, bool))
    ensures
        r.0@ == replaced(component@),
        r.1 == (r.0@ != component@),
{
    let mut clean: Vec<char> = Vec::new();
    let mut was_modified = false;
    let mut i: usize = 0;
    assert(clean@ =~= component@.take(0));
    while i < component.len()
        invariant
            i <= component.len(),
            clean@ == replaced(component@.take(i as int)),
            was_modified == (clean@ != component@.take(i as int)),
        decreases component.len() - i,
    {
        let c = component[i];
        let ghost before = component@.take(i as int);
        let ghost done = clean@;
        assert(component@.take(i + 1) =~= before.push(c));
        if is_invalid_filename_char(c) {
            clean.push('_');
            was_modified = true;
            assert(clean@.last() != component@.take(i + 1).last());
        } else {
            clean.push(c);
            assert(clean@.drop_last() =~= done);
            assert(component@.take(i + 1).drop_last() =~= before);
        }
        assert(clean@ =~= replaced(component@.take(i + 1)));
        i += 1;
    }
    assert(component@.take(component@.len() as int) =~= component@);
    (clean, was_modified)
}

/// Whether a base name with plain digits is one of the device names,
/// whatever its case.
fn is_device_name(digits: &Vec<char>, base: Ghost<Seq<char>>) -> (r: bool)
    requires
        digits@ == with_plain_digits(base@),
    ensures
        r == is_device(base@),
{
    let lower = text::to_lower_all(digits);
    let name = &lower;
    if text::is_text(name, "con") || text::is_text(name, "prn") || text::is_text(name, "aux")
        || text::is_text(name, "nul") || text::is_text(name, "conin$") || text::is_text(
        name,
        "conout$",
    ) || text::is_text(name, "clock$") {
        return true;
    }
    if name.len() == 4 {
        let stem = text::chars_between(name, 0, 3);
        assert(name@.subrange(0, 3) =~= name@.take(3));
        let digit = name[3];
        (text::is_text(&stem, "com") || text::is_text(&stem, "lpt")) && '1' <= digit && digit
            <= '9'
    } else {
        false
    }
}

/// Marks a component whose base name is a device name, and says whether it
/// was one.
fn mark_reserved_name(component: &mut Vec<char>) -> (r: bool)
    ensures
        final(component)@ == marked(old(component)@),
        r == (final(component)@ != old(component)@),
{
    let end: usize = text::find(component, '.');
    let base = text::chars_between(component, 0, end);
    assert(component@.subrange(0, end as int) =~= component@.take(end as int));
    let name = device_name_base(&base);
    let is_reserved = is_device_name(&name, Ghost(base@));
    if is_reserved {
        let ghost before = component@;
        component.insert(end, '_');
        assert(component@.len() != before.len());
    }
    is_reserved
}

/// Sanitizes one non-empty component, and says whether that changed it.
fn sanitize_component(component: &Vec<char>) -> (r: (Vec<char>, bool))
    requires
        !component@.contains('/'),
    ensures
        r.0@ == clean_component(component@),
        r.1 == (r.0@ != component@),
{
    let (plain, replaced_any) = replace_invalid_chars(component);
    let mut was_modified = replaced_any;
    let mut clean = text::trim_end(&text::trim_both(&plain, Trim::Space), Trim::SpaceOrDot);
    if clean.len() != plain.len() {
        was_modified = true;
    }
    if clean.len() == 0 {
        clean = Vec::new();
        clean.push('_');
        assert(clean@ =~= seq!['_']);
        was_modified = true;
    }
    let marked_name = mark_reserved_name(&mut clean);
    proof {
        lemma_clean_component_is_safe(component@);
        if is_safe(component@) {
            lemma_safe_component_is_kept(component@);
            assert(replaced(component@) =~= component@);
        } else {
            let front = text::trim_front(plain@, Trim::Space);
            let both = text::trim_back(front, Trim::Space);
            let bare = text::trim_back(both, Trim::SpaceOrDot);
            text::lemma_trim_front(plain@, Trim::Space);
            text::lemma_trim_back(front, Trim::Space);
            text::lemma_trim_back(both, Trim::SpaceOrDot);
            if bare.len() == plain@.len() {
                assert(bare =~= plain@);
            }
        }
    }
    (clean, was_modified || marked_name)
}

/// Sanitizes a file name for every file system, keeping its `/` separators:
/// gives the name to store it under, and whether that differs.
#[must_use]
pub fn sanitize_filename(filename: &str) -> (r: (String, bool))
    ensures
        r.0@ == sanitized(filename@),
        r.1 == (r.0@ != filename@),
{
    let name = text::chars_of(filename);
    let components = text::split_chars(&name, '/');
    let ghost pieces = text::split(filename@, '/');
    let mut was_modified = false;
    let mut result: Vec<char> = Vec::new();
    let mut emitted: usize = 0;
    let mut i: usize = 0;
    proof {
        text::lemma_split_pieces(filename@, '/');
        reveal_strlit("/");
        assert("/"@ =~= seq!['/']);
        assert(entries(pieces.take(0)) =~= Seq::empty()) by {
            reveal(Seq::filter);
        }
        assert(cleaned(entries(pieces.take(0))) =~= pieces.take(0));
    }
    while i < components.len()
        invariant
            i <= components.len(),
            text::rows(components@) == pieces,
            forall|k: int| 0 <= k < pieces.len() ==> !(#[trigger] pieces[k]).contains('/'),
            "/"@ == seq!['/'],
            emitted == entries(pieces.take(i as int)).len(),
            emitted <= i,
            result@ == text::join(cleaned(entries(pieces.take(i as int))), "/"@),
            was_modified == (cleaned(entries(pieces.take(i as int))) != pieces.take(i as int)),
        decreases components.len() - i,
    {
        let ghost before = entries(pieces.take(i as int));
        let component = &components[i];
        proof {
            assert(component@ == pieces[i as int]);
            reveal(Seq::filter);
            assert(pieces.take(i + 1).drop_last() =~= pieces.take(i as int));
        }
        let dropped = component.len() == 0 || text::is_text(component, ".") || text::is_text(
            component,
            "..",
        );
        if dropped {
            assert(entries(pieces.take(i + 1)) =~= before);
            was_modified = true;
            assert(cleaned(before).len() < pieces.take(i + 1).len());
        } else {
            let ghost after = entries(pieces.take(i + 1));
            assert(after =~= before.push(component@));
            if emitted > 0 {
                result.push('/');
            }
            emitted += 1;
            let (clean, modified) = sanitize_component(component);
            let ghost had = was_modified;
            was_modified = was_modified || modified;
            text::push_chars(&mut result, &clean);
            proof {
                assert(cleaned(after) =~= cleaned(before).push(clean@));
                assert(cleaned(after).drop_last() =~= cleaned(before));
                assert(result@ =~= text::join(cleaned(after), "/"@));
                if !had && !modified {
                    assert(cleaned(after) =~= pieces.take(i + 1));
                } else if had {
                    if cleaned(after) == pieces.take(i + 1) {
                        assert(cleaned(after).drop_last() =~= pieces.take(i + 1).drop_last());
                    }
                } else {
                    assert(cleaned(after).last() != pieces.take(i + 1).last() || cleaned(
                        after,
                    ).len() != pieces.take(i + 1).len());
                }
            }
        }
        i += 1;
    }
    proof {
        assert(pieces.take(pieces.len() as int) =~= pieces);
        text::lemma_join_split(filename@, '/');
        lemma_sanitized_components(filename@);
        if filename@.len() == 0 {
            assert(filename@ =~= Seq::<char>::empty());
            sanitized_of_empty();
        }
    }
    (text::text_of(&result), name.len() > 0 && was_modified)
}

/// Nothing is stored under the empty name.
proof fn sanitized_of_empty()
    ensures
        sanitized(Seq::empty()) == Seq::<char>::empty(),
{
    reveal(Seq::filter);
    let pieces = text::split(Seq::empty(), '/');
    assert(pieces =~= seq![Seq::<char>::empty()]);
    assert(pieces.drop_last() =~= Seq::empty());
    assert(entries(pieces.drop_last()) =~= Seq::empty());
    assert(entries(pieces) =~= Seq::empty());
    assert(cleaned(entries(pieces)).len() == 0);
}

/// The superscript digits that Windows reads as plain ones, from one on.
pub open spec fn is_superscript(c: char) -> bool {
    c == '¹' || c == '²' || c == '³' || c == '⁴' || c == '⁵' || c == '⁶' || c == '⁷' || c == '⁸'
        || c == '⁹'
}

/// Whether a base name is one that Windows keeps for devices: the console,
/// the printer, the serial and null devices, the console's two files, the
/// clock, and the serial and parallel ports one to nine.
pub open spec fn is_reserved(base: Seq<char>) -> bool {
    let lower = text::lowered(base);
    ||| lower == seq!['c', 'o', 'n']
    ||| lower == seq!['p', 'r', 'n']
    ||| lower == seq!['a', 'u', 'x']
    ||| lower == seq!['n', 'u', 'l']
    ||| lower == seq!['c', 'o', 'n', 'i', 'n', '$']
    ||| lower == seq!['c', 'o', 'n', 'o', 'u', 't', '$']
    ||| lower == seq!['c', 'l', 'o', 'c', 'k', '$']
    ||| base.len() == 4 && (lower.take(3) == seq!['c', 'o', 'm'] || lower.take(3) == seq![
        'l',
        'p',
        't',
    ]) && ('1' <= base[3] <= '9' || is_superscript(base[3]))
}

proof fn lemma_folded_char(c: char)
    ensures
        '1' <= text::lower(plain_digit(c)) <= '9' <==> '1' <= c <= '9' || is_superscript(c),
        !is_superscript(c) ==> plain_digit(c) == c,
        is_superscript(c) ==> text::lower(c) == c,
{
}

proof fn lemma_folded_name(base: Seq<char>, name: Seq<char>)
    requires
        forall|i: int|
            0 <= i < name.len() ==> !('1' <= #[trigger] name[i] <= '9') && !is_superscript(name[i]),
    ensures
        folded(base) == name <==> text::lowered(base) == name,
        name.len() == 3 && base.len() == 4 ==> (folded(base).take(3) == name <==> text::lowered(
            base,
        ).take(3) == name),
{
    let a = folded(base);
    let b = text::lowered(base);
    assert forall|i: int| 0 <= i < base.len() implies (!is_superscript(base[i]) ==> #[trigger] a[i]
        == b[i]) && (is_superscript(base[i]) ==> '1' <= a[i] <= '9' && is_superscript(b[i])) by {
        lemma_folded_char(base[i]);
        assert(a[i] == text::lower(plain_digit(base[i])));
        assert(b[i] == text::lower(base[i]));
    }
    if a == name {
        assert forall|i: int| 0 <= i < base.len() implies b[i] == #[trigger] name[i] by {
            assert(a[i] == name[i]);
        }
        assert(b =~= name);
    }
    if b == name {
        assert forall|i: int| 0 <= i < base.len() implies a[i] == #[trigger] name[i] by {
            assert(b[i] == name[i]);
        }
        assert(a =~= name);
    }
    if name.len() == 3 && base.len() == 4 {
        if a.take(3) == name {
            assert forall|i: int| 0 <= i < 3 implies b.take(3)[i] == #[trigger] name[i] by {
                assert(a.take(3)[i] == a[i]);
                assert(b.take(3)[i] == b[i]);
            }
            assert(b.take(3) =~= name);
        }
        if b.take(3) == name {
            assert forall|i: int| 0 <= i < 3 implies a.take(3)[i] == #[trigger] name[i] by {
                assert(a.take(3)[i] == a[i]);
                assert(b.take(3)[i] == b[i]);
            }
            assert(a.take(3) =~= name);
        }
    }
}

/// The device names are those that Windows keeps, in either case and with
/// superscript digits too, and no others.
pub proof fn devices_are_the_reserved_names(base: Seq<char>)
    ensures
        is_device(base) <==> is_reserved(base),
{
    reveal_strlit("con");
    reveal_strlit("prn");
    reveal_strlit("aux");
    reveal_strlit("nul");
    reveal_strlit("conin$");
    reveal_strlit("conout$");
    reveal_strlit("clock$");
    reveal_strlit("com");
    reveal_strlit("lpt");
    assert("con"@ =~= seq!['c', 'o', 'n']);
    assert("prn"@ =~= seq!['p', 'r', 'n']);
    assert("aux"@ =~= seq!['a', 'u', 'x']);
    assert("nul"@ =~= seq!['n', 'u', 'l']);
    assert("conin$"@ =~= seq!['c', 'o', 'n', 'i', 'n', '$']);
    assert("conout$"@ =~= seq!['c', 'o', 'n', 'o', 'u', 't', '$']);
    assert("clock$"@ =~= seq!['c', 'l', 'o', 'c', 'k', '$']);
    assert("com"@ =~= seq!['c', 'o', 'm']);
    assert("lpt"@ =~= seq!['l', 'p', 't']);
    lemma_folded_name(base, seq!['c', 'o', 'n']);
    lemma_folded_name(base, seq!['p', 'r', 'n']);
    lemma_folded_name(base, seq!['a', 'u', 'x']);
    lemma_folded_name(base, seq!['n', 'u', 'l']);
    lemma_folded_name(base, seq!['c', 'o', 'n', 'i', 'n', '$']);
    lemma_folded_name(base, seq!['c', 'o', 'n', 'o', 'u', 't', '$']);
    lemma_folded_name(base, seq!['c', 'l', 'o', 'c', 'k', '$']);
    lemma_folded_name(base, seq!['c', 'o', 'm']);
    lemma_folded_name(base, seq!['l', 'p', 't']);
    if base.len() == 4 {
        lemma_folded_char(base[3]);
        assert(folded(base)[3] == text::lower(plain_digit(base[3])));
    }
}

/// The characters that some file system refuses: those that Windows reserves,
/// but for the separator, and the control characters of ASCII.
pub open spec fn is_refused(c: char) -> bool {
    c == '<' || c == '>' || c == ':' || c == '"' || c == '|' || c == '?' || c == '*' || c == '\\'
        || '\0' <= c <= '\u{1f}' || c == '\u{7f}'
}

/// Each character that a file system refuses becomes an underscore; every
/// other one, and the number of characters, stays.
pub proof fn refused_characters_are_replaced(component: Seq<char>, i: int)
    requires
        0 <= i < component.len(),
    ensures
        replaced(component).len() == component.len(),
        is_refused(component[i]) ==> replaced(component)[i] == '_',
        !is_refused(component[i]) ==> replaced(component)[i] == component[i],
        is_invalid(component[i]) <==> is_refused(component[i]),
{
    lemma_refused(component[i]);
}

proof fn lemma_refused(c: char)
    ensures
        is_invalid(c) <==> is_refused(c),
{
}

/// A component that no file system refuses is stored as it is, but for white
/// space around it and dots behind it, which are taken off; where nothing is
/// left, an underscore stands for it.
pub proof fn ordinary_components_are_kept(front: Seq<char>, name: Seq<char>, back: Seq<char>)
    requires
        forall|i: int| 0 <= i < front.len() ==> #[trigger] front[i] == ' ',
        forall|i: int| 0 <= i < back.len() ==> #[trigger] back[i] == ' ' || back[i] == '.',
        forall|i: int| 0 <= i < name.len() ==> !is_refused(#[trigger] name[i]),
        name.len() > 0 ==> !Trim::Space.has(name.first()) && !Trim::SpaceOrDot.has(name.last()),
        name.len() == 0 ==> back.len() == 0,
    ensures
        name.len() > 0 && !is_reserved(name.take(text::position(name, '.'))) ==> clean_component(
            front + name + back,
        ) == name,
        name.len() == 0 ==> clean_component(front + name + back) == seq!['_'],
{
    let whole = front + name + back;
    assert(replaced(whole) =~= whole) by {
        assert forall|i: int| 0 <= i < whole.len() implies #[trigger] replaced(whole)[i]
            == whole[i] by {
            refused_characters_are_replaced(whole, i);
            if i < front.len() {
                assert(whole[i] == front[i]);
            } else if i < front.len() + name.len() {
                assert(whole[i] == name[i - front.len()]);
            } else {
                assert(whole[i] == back[i - front.len() - name.len()]);
            }
        }
    }
    assert forall|i: int| 0 <= i < front.len() implies Trim::Space.has(#[trigger] front[i]) by {
        text::white_space_is_that_of_unicode(front[i]);
    }
    assert forall|i: int| 0 <= i < back.len() implies Trim::SpaceOrDot.has(#[trigger] back[i]) by {
        text::white_space_is_that_of_unicode(back[i]);
    }
    if name.len() == 0 {
        let none = Seq::<char>::empty();
        text::trimming_leaves_the_middle(front, none, none, Trim::Space);
        assert(whole =~= front + none + none);
        assert(trimmed(whole) =~= none);
        lemma_underscore();
    } else {
        let rest = name + back;
        assert(whole =~= front + rest);
        assert(rest.first() == name.first());
        text::lemma_trim_front_run(front, rest, Trim::Space);
        lemma_trim_back_twice(rest);
        text::lemma_trim_back_run(name, back, Trim::SpaceOrDot);
        assert(trimmed(whole) == name);
        devices_are_the_reserved_names(name.take(base_len(name)));
    }
}

proof fn lemma_underscore()
    ensures
        marked(seq!['_']) == seq!['_'],
{
    let name = seq!['_'];
    text::lemma_position(name, '.');
    assert(base_len(name) == 1) by {
        lemma_base_len_unique(name, 1);
    }
    assert(name.take(1) =~= name);
    assert(name[0] == '_');
    lemma_device_has_no_underscore(name);
}

/// White space that is taken off the end changes nothing of what is left
/// when dots and white space are.
proof fn lemma_trim_back_twice(s: Seq<char>)
    ensures
        text::trim_back(text::trim_back(s, Trim::Space), Trim::SpaceOrDot) == text::trim_back(
            s,
            Trim::SpaceOrDot,
        ),
    decreases s.len(),
{
    if s.len() > 0 && Trim::Space.has(s.last()) {
        text::white_space_is_that_of_unicode(s.last());
        lemma_trim_back_twice(s.drop_last());
    }
}

/// A name that Windows keeps for a device gets an underscore behind its base
/// name, in front of its extension where it has one.
pub proof fn reserved_names_are_marked(base: Seq<char>, extension: Seq<char>)
    requires
        is_reserved(base),
        extension.len() > 0 ==> extension.first() == '.' && !Trim::SpaceOrDot.has(extension.last()),
        forall|i: int| 0 <= i < extension.len() ==> !is_refused(#[trigger] extension[i]),
    ensures
        clean_component(base + extension) == base + seq!['_'] + extension,
{
    let whole = base + extension;
    lemma_reserved_chars(base);
    assert(replaced(whole) =~= whole) by {
        assert forall|i: int| 0 <= i < whole.len() implies #[trigger] replaced(whole)[i]
            == whole[i] by {
            refused_characters_are_replaced(whole, i);
            if i < base.len() {
                assert(whole[i] == base[i]);
            } else {
                assert(whole[i] == extension[i - base.len()]);
            }
        }
    }
    assert(whole.first() == base.first());
    if extension.len() == 0 {
        assert(whole.last() == base[base.len() - 1]);
    } else {
        assert(whole.last() == extension.last());
        text::white_space_is_that_of_unicode(whole.last());
    }
    text::trimmed_texts_stay(whole, Trim::Space);
    text::lemma_trim_back_run(whole, Seq::empty(), Trim::SpaceOrDot);
    assert(whole + Seq::<char>::empty() =~= whole);
    assert(trimmed(whole) == whole);
    assert forall|i: int| 0 <= i < base.len() implies whole[i] != '.' by {
        assert(whole[i] == base[i]);
    }
    lemma_base_len_unique(whole, base.len() as int);
    assert(whole.take(base.len() as int) =~= base);
    devices_are_the_reserved_names(base);
    assert(whole.insert(base.len() as int, '_') =~= base + seq!['_'] + extension);
}

proof fn lemma_reserved_chars(base: Seq<char>)
    requires
        is_reserved(base),
    ensures
        base.len() > 0,
        forall|i: int|
            0 <= i < base.len() ==> !is_refused(#[trigger] base[i]) && base[i] != '.'
                && !Trim::Space.has(base[i]) && !Trim::SpaceOrDot.has(base[i]),
{
    text::lower_case_changes_capitals_alone(base);
    let lower = text::lowered(base);
    assert forall|i: int| 0 <= i < base.len() implies !is_refused(#[trigger] base[i]) && base[i]
        != '.' && !Trim::Space.has(base[i]) && !Trim::SpaceOrDot.has(base[i]) by {
        assert(lower[i] == text::lower(base[i]));
        if base.len() == 4 && i < 3 {
            assert(lower.take(3)[i] == lower[i]);
        }
        lemma_name_char(base[i]);
    }
}

proof fn lemma_name_char(c: char)
    requires
        'a' <= text::lower(c) <= 'z' || c == '$' || '1' <= c <= '9' || is_superscript(c)
            || text::lower(c) == '$',
    ensures
        !is_refused(c),
        c != '.',
        !Trim::Space.has(c),
        !Trim::SpaceOrDot.has(c),
{
    text::white_space_is_that_of_unicode(c);
}

/// A name is stored component by component: one that names nothing below,
/// being empty, `.` or `..`, is left out, and every other is put behind those
/// before it.
pub proof fn names_are_stored_component_by_component(dir: Seq<char>, name: Seq<char>)
    requires
        !name.contains('/'),
    ensures
        name == seq!['.'] || name == seq!['.', '.'] || name.len() == 0 ==> sanitized(name).len()
            == 0 && sanitized(dir + seq!['/'] + name) == sanitized(dir),
        name.len() > 0 && name != seq!['.'] && name != seq!['.', '.'] ==> sanitized(name)
            == clean_component(name) && sanitized(dir + seq!['/'] + name) == if sanitized(dir).len()
            == 0 {
            clean_component(name)
        } else {
            sanitized(dir) + seq!['/'] + clean_component(name)
        },
{
    reveal(Seq::filter);
    reveal_strlit(".");
    reveal_strlit("..");
    reveal_strlit("/");
    assert("."@ =~= seq!['.']);
    assert(".."@ =~= seq!['.', '.']);
    assert("/"@ =~= seq!['/']);
    let none = Seq::<Seq<char>>::empty();
    let parts = text::split(dir, '/');
    text::lemma_split_whole(name, '/');
    text::lemma_split_append(dir, name, '/');
    assert(parts.push(name).drop_last() =~= parts);
    assert(seq![name].drop_last() =~= none);
    assert(entries(none) =~= none);
    lemma_sanitized_components(dir);
    if names_entry(name) {
        assert(entries(seq![name]) =~= seq![name]);
        assert(cleaned(seq![name]) =~= seq![clean_component(name)]);
        assert(entries(parts.push(name)) =~= entries(parts).push(name));
        assert(cleaned(entries(parts).push(name)) =~= cleaned(entries(parts)).push(
            clean_component(name),
        ));
        let before = cleaned(entries(parts));
        let last = clean_component(name);
        assert(text::join(seq![last], "/"@) == last) by {
            text::joining_goes_piece_by_piece(seq![last], seq![last], "/"@);
        }
        if before.len() == 0 {
            assert(before.push(last) =~= seq![last]);
            assert(text::join(before, "/"@) =~= Seq::<char>::empty());
        } else {
            text::joining_goes_piece_by_piece(before, seq![last], "/"@);
            assert(before.push(last) =~= before + seq![last]);
        }
    } else {
        assert(entries(seq![name]) =~= none);
        assert(cleaned(none) =~= none);
        assert(text::join(none, "/"@) =~= Seq::<char>::empty());
        assert(entries(parts.push(name)) =~= entries(parts));
    }
}

} // verus!
