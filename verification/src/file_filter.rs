//! Name filtering for the download plan: the include and exclude globs,
//! matched against the archive's original file names.

use crate::text;
use vstd::prelude::*;

verus! {

/// Whether `name` matches the glob `pattern`: `*` stands for any run of
/// characters (none, and separators, among them), `?` for one character, and
/// every other character for itself.
pub open spec fn globs(pattern: Seq<char>, name: Seq<char>) -> bool
    decreases pattern.len(), name.len(),
{
    if pattern.len() == 0 {
        name.len() == 0
    } else if pattern.first() == '*' {
        globs(pattern.skip(1), name) || (name.len() > 0 && globs(pattern, name.skip(1)))
    } else {
        name.len() > 0 && (pattern.first() == '?' || pattern.first() == name.first()) && globs(
            pattern.skip(1),
            name.skip(1),
        )
    }
}

/// No star stands in `pattern` from `from` up to `to`.
spec fn starless(pattern: Seq<char>, from: int, to: int) -> bool {
    forall|k: int| from <= k < to ==> pattern[k] != '*'
}

/// A leading star takes any number of characters: the rest of the pattern
/// matches behind them.
proof fn lemma_star_takes(pattern: Seq<char>, name: Seq<char>) -> (taken: int)
    requires
        pattern.len() > 0,
        pattern.first() == '*',
        globs(pattern, name),
    ensures
        0 <= taken <= name.len(),
        globs(pattern.skip(1), name.skip(taken)),
    decreases name.len(),
{
    if globs(pattern.skip(1), name) {
        assert(name.skip(0) =~= name);
        0
    } else {
        let rest = lemma_star_takes(pattern, name.skip(1));
        assert(name.skip(1).skip(rest) =~= name.skip(rest + 1));
        rest + 1
    }
}

/// A leading star takes any characters in front of a match.
proof fn lemma_star_absorbs(pattern: Seq<char>, name: Seq<char>, taken: int)
    requires
        pattern.len() > 0,
        pattern.first() == '*',
        0 <= taken <= name.len(),
        globs(pattern, name.skip(taken)),
    ensures
        globs(pattern, name),
    decreases taken,
{
    if taken == 0 {
        assert(name.skip(0) =~= name);
    } else {
        assert(name.skip(1).skip(taken - 1) =~= name.skip(taken));
        lemma_star_absorbs(pattern, name.skip(1), taken - 1);
    }
}

/// A part without stars takes as many characters as it has.
proof fn lemma_starless_part(pattern: Seq<char>, from: int, to: int, name: Seq<char>)
    requires
        0 <= from <= to <= pattern.len(),
        starless(pattern, from, to),
        globs(pattern.skip(from), name),
    ensures
        to - from <= name.len(),
        globs(pattern.skip(to), name.skip(to - from)),
    decreases to - from,
{
    if from == to {
        assert(name.skip(0) =~= name);
    } else {
        assert(pattern.skip(from).first() != '*');
        assert(pattern.skip(from).skip(1) =~= pattern.skip(from + 1));
        lemma_starless_part(pattern, from + 1, to, name.skip(1));
        assert(name.skip(1).skip(to - from - 1) =~= name.skip(to - from));
    }
}

/// Nothing is matched by stars alone.
proof fn lemma_globs_nothing(pattern: Seq<char>)
    ensures
        globs(pattern, Seq::empty()) == forall|k: int|
            0 <= k < pattern.len() ==> #[trigger] pattern[k] == '*',
    decreases pattern.len(),
{
    if pattern.len() > 0 {
        let rest = pattern.skip(1);
        lemma_globs_nothing(rest);
        if pattern.first() == '*' {
            if forall|m: int| 0 <= m < rest.len() ==> #[trigger] rest[m] == '*' {
                assert forall|k: int| 0 <= k < pattern.len() implies #[trigger] pattern[k]
                    == '*' by {
                    if k > 0 {
                        assert(rest[k - 1] == pattern[k]);
                    }
                }
            }
            if forall|k: int| 0 <= k < pattern.len() ==> #[trigger] pattern[k] == '*' {
                assert forall|m: int| 0 <= m < rest.len() implies #[trigger] rest[m] == '*' by {
                    assert(rest[m] == pattern[m + 1]);
                }
            }
        }
    }
}

/// A pattern without wildcards matches itself alone.
pub proof fn literal_pattern_matches_itself_alone(pattern: Seq<char>, name: Seq<char>)
    requires
        !pattern.contains('*'),
        !pattern.contains('?'),
    ensures
        globs(pattern, name) == (pattern == name),
    decreases pattern.len(),
{
    if pattern.len() == 0 {
        assert(pattern =~= Seq::empty());
        if name.len() == 0 {
            assert(pattern =~= name);
        }
    } else {
        assert(pattern.contains(pattern.first()));
        let rest = pattern.skip(1);
        assert forall|k: int| 0 <= k < rest.len() implies rest[k] != '*' && rest[k] != '?' by {
            assert(pattern.contains(pattern[k + 1]));
        }
        if name.len() > 0 {
            literal_pattern_matches_itself_alone(rest, name.skip(1));
            assert(pattern =~= seq![pattern.first()] + rest);
            assert(name =~= seq![name.first()] + name.skip(1));
        }
    }
}

/// A lone star matches every name.
pub proof fn star_matches_everything(name: Seq<char>)
    ensures
        globs(seq!['*'], name),
    decreases name.len(),
{
    assert(seq!['*'].skip(1) =~= Seq::empty());
    assert(globs(Seq::empty(), name) == (name.len() == 0));
    if name.len() > 0 {
        star_matches_everything(name.skip(1));
    }
}

/// A star in front of a text without wildcards matches exactly the names
/// that end with it, whatever directories they stand in.
pub proof fn star_then_literal_matches_the_ending(literal: Seq<char>, name: Seq<char>)
    requires
        !literal.contains('*'),
        !literal.contains('?'),
    ensures
        globs(seq!['*'] + literal, name) == literal.is_suffix_of(name),
{
    let pattern = seq!['*'] + literal;
    assert(pattern.skip(1) =~= literal);
    if globs(pattern, name) {
        let taken = lemma_star_takes(pattern, name);
        literal_pattern_matches_itself_alone(literal, name.skip(taken));
        assert(name.subrange(name.len() - literal.len(), name.len() as int) =~= name.skip(taken));
    }
    if literal.is_suffix_of(name) {
        let taken = name.len() - literal.len();
        assert(name.skip(taken) =~= literal);
        literal_pattern_matches_itself_alone(literal, name.skip(taken));
        assert(globs(pattern, name.skip(taken)));
        lemma_star_absorbs(pattern, name, taken);
    }
}

/// Reports whether `name` matches the glob `pattern`.
///
/// A star that was passed is returned to when what follows does not fit, and
/// takes one more character; only the last star passed needs that.
pub fn glob_match(pattern: &str, name: &str) -> (r: bool)
    ensures
        r == globs(pattern@, name@),
{
    let p = text::chars_of(pattern);
    let n = text::chars_of(name);
    let mut i: usize = 0;
    let mut j: usize = 0;
    let mut star: Option<(usize, usize)> = None;
    assert(p@.skip(0) =~= p@);
    assert(n@.skip(0) =~= n@);
    while j < n.len()
        invariant
            p@ == pattern@,
            n@ == name@,
            i <= p.len(),
            j <= n.len(),
            match star {
                None => globs(p@, n@) == globs(p@.skip(i as int), n@.skip(j as int)),
                Some((si, sj)) => {
                    &&& si < i
                    &&& sj <= j
                    &&& i - si - 1 == j - sj
                    &&& p@[si as int] == '*'
                    &&& starless(p@, si + 1, i as int)
                    &&& globs(p@, n@) == globs(p@.skip(si as int), n@.skip(sj as int))
                    &&& globs(p@.skip(si + 1), n@.skip(sj as int)) == globs(
                        p@.skip(i as int),
                        n@.skip(j as int),
                    )
                },
            },
        decreases
                match star {
                    None => n.len() + 1,
                    Some((si, sj)) => n.len() - sj,
                },
                p.len() - i,
    {
        proof {
            if i < p.len() {
                assert(p@.skip(i as int).first() == p@[i as int]);
                assert(p@.skip(i as int).skip(1) =~= p@.skip(i + 1));
            }
            assert(n@.skip(j as int).first() == n@[j as int]);
            assert(n@.skip(j as int).skip(1) =~= n@.skip(j + 1));
        }
        if i < p.len() && p[i] == '*' {
            proof {
                let tail = p@.skip(i as int);
                if let Some((si, sj)) = star {
                    let head = p@.skip(si as int);
                    assert(head.first() == '*');
                    assert(head.skip(1) =~= p@.skip(si + 1));
                    if globs(head, n@.skip(sj as int)) {
                        let taken = lemma_star_takes(head, n@.skip(sj as int));
                        let from = sj + taken;
                        assert(n@.skip(sj as int).skip(taken) =~= n@.skip(from));
                        lemma_starless_part(p@, si + 1, i as int, n@.skip(from));
                        let width = i - si - 1;
                        assert(n@.skip(from).skip(width) =~= n@.skip(j as int).skip(taken));
                        lemma_star_absorbs(tail, n@.skip(j as int), taken);
                    }
                }
            }
            star = Some((i, j));
            i += 1;
        } else if i < p.len() && (p[i] == '?' || p[i] == n[j]) {
            i += 1;
            j += 1;
        } else {
            match star {
                Some((si, sj)) => {
                    proof {
                        let head = p@.skip(si as int);
                        assert(head.first() == '*');
                        assert(head.skip(1) =~= p@.skip(si + 1));
                        assert(n@.skip(sj as int).skip(1) =~= n@.skip(sj + 1));
                        if i == p.len() {
                            assert(p@.skip(i as int) =~= Seq::empty());
                        }
                    }
                    star = Some((si, sj + 1));
                    j = sj + 1;
                    i = si + 1;
                },
                None => {
                    return false;
                },
            }
        }
    }
    let ghost stop = i as int;
    proof {
        assert(n@.skip(j as int) =~= Seq::empty());
        if let Some((si, sj)) = star {
            let head = p@.skip(si as int);
            assert(head.first() == '*');
            assert(head.skip(1) =~= p@.skip(si + 1));
            if globs(head, n@.skip(sj as int)) {
                let taken = lemma_star_takes(head, n@.skip(sj as int));
                let from = sj + taken;
                assert(n@.skip(sj as int).skip(taken) =~= n@.skip(from));
                lemma_starless_part(p@, si + 1, i as int, n@.skip(from));
                assert(taken == 0);
            }
        }
        lemma_globs_nothing(p@.skip(stop));
    }
    while i < p.len() && p[i] == '*'
        invariant
            stop <= i <= p.len(),
            forall|k: int| stop <= k < i ==> p@[k] == '*',
        decreases p.len() - i,
    {
        i += 1;
    }
    proof {
        let tail = p@.skip(stop);
        if i == p.len() {
            assert forall|k: int| 0 <= k < tail.len() implies #[trigger] tail[k] == '*' by {
                assert(tail[k] == p@[stop + k]);
            }
        } else {
            assert(tail[i - stop] == p@[i as int]);
        }
    }
    i == p.len()
}

/// The include and exclude patterns of one run. A filter without patterns
/// passes every name.
#[derive(Debug)]
pub struct FileFilter {
    pub includes: Vec<String>,
    pub excludes: Vec<String>,
}

/// Whether `name` matches one of the patterns.
pub open spec fn matches_any(patterns: Seq<String>, name: Seq<char>) -> bool {
    exists|i: int| 0 <= i < patterns.len() && globs(#[trigger] patterns[i]@, name)
}

fn any_match(patterns: &Vec<String>, name: &str) -> (r: bool)
    ensures
        r == matches_any(patterns@, name@),
{
    let mut i: usize = 0;
    while i < patterns.len()
        invariant
            i <= patterns.len(),
            forall|k: int| 0 <= k < i ==> !globs(#[trigger] patterns@[k]@, name@),
        decreases patterns.len() - i,
    {
        if glob_match(&patterns[i], name) {
            return true;
        }
        i += 1;
    }
    false
}

impl FileFilter {
    /// Whether the filter lets `name` through: it matches an include
    /// pattern, where there are any, and no exclude pattern.
    pub open spec fn keeps(&self, name: Seq<char>) -> bool {
        (self.includes@.len() == 0 || matches_any(self.includes@, name)) && !matches_any(
            self.excludes@,
            name,
        )
    }

    pub fn new(includes: Vec<String>, excludes: Vec<String>) -> (r: Self)
        ensures
            r.includes == includes,
            r.excludes == excludes,
    {
        Self { includes, excludes }
    }

    /// Whether no pattern was given.
    pub fn is_empty(&self) -> (r: bool)
        ensures
            r == (self.includes@.len() == 0 && self.excludes@.len() == 0),
    {
        self.includes.len() == 0 && self.excludes.len() == 0
    }

    /// Whether `name` survives the filter.
    pub fn matches(&self, name: &str) -> (r: bool)
        ensures
            r == self.keeps(name@),
    {
        (self.includes.len() == 0 || any_match(&self.includes, name)) && !any_match(
            &self.excludes,
            name,
        )
    }
}

impl Default for FileFilter {
    fn default() -> (r: Self)
        ensures
            r.includes@.len() == 0,
            r.excludes@.len() == 0,
    {
        Self { includes: Vec::new(), excludes: Vec::new() }
    }
}

/// A filter without patterns passes every name.
pub proof fn empty_filter_passes_everything(filter: FileFilter, name: Seq<char>)
    requires
        filter.includes@.len() == 0,
        filter.excludes@.len() == 0,
    ensures
        filter.keeps(name),
{
}

/// A name that an exclude pattern matches is out, whatever the includes say.
pub proof fn exclude_wins(filter: FileFilter, name: Seq<char>, i: int)
    requires
        0 <= i < filter.excludes@.len(),
        globs(filter.excludes@[i]@, name),
    ensures
        !filter.keeps(name),
{
}

// ---------------------------------------------------------------------------
// What patterns promise
// ---------------------------------------------------------------------------

/// A pattern of one part behind another matches the names that a match of
/// the first goes on to a match of the second in, and no others.
pub proof fn patterns_match_part_by_part(p: Seq<char>, q: Seq<char>, name: Seq<char>)
    ensures
        globs(p + q, name) <==> exists|n: int|
            0 <= n <= name.len() && #[trigger] globs(p, name.take(n)) && globs(q, name.skip(n)),
    decreases p.len(), name.len(),
{
    if p.len() == 0 {
        assert(p + q =~= q);
        assert(name.take(0) =~= Seq::<char>::empty());
        assert(name.skip(0) =~= name);
        assert(globs(p, name.take(0)));
        if exists|n: int|
            0 <= n <= name.len() && #[trigger] globs(p, name.take(n)) && globs(q, name.skip(n)) {
            let n = choose|n: int|
                0 <= n <= name.len() && #[trigger] globs(p, name.take(n)) && globs(q, name.skip(n));
            assert(name.take(n).len() == 0);
            assert(n == 0);
        }
    } else {
        let rest = p.skip(1);
        assert((p + q).first() == p.first());
        assert((p + q).skip(1) =~= rest + q);
        if p.first() == '*' {
            patterns_match_part_by_part(rest, q, name);
            if name.len() > 0 {
                patterns_match_part_by_part(p, q, name.skip(1));
            }
            if globs(p + q, name) {
                if globs(rest + q, name) {
                    let n = choose|n: int|
                        0 <= n <= name.len() && #[trigger] globs(rest, name.take(n)) && globs(
                            q,
                            name.skip(n),
                        );
                    assert(globs(p, name.take(n)));
                } else {
                    let tail = name.skip(1);
                    let n = choose|n: int|
                        0 <= n <= tail.len() && #[trigger] globs(p, tail.take(n)) && globs(
                            q,
                            tail.skip(n),
                        );
                    assert(name.take(n + 1).skip(1) =~= tail.take(n));
                    assert(name.skip(n + 1) =~= tail.skip(n));
                    assert(globs(p, name.take(n + 1)));
                }
            }
            if exists|n: int|
                0 <= n <= name.len() && #[trigger] globs(p, name.take(n)) && globs(
                    q,
                    name.skip(n),
                ) {
                let n = choose|n: int|
                    0 <= n <= name.len() && #[trigger] globs(p, name.take(n)) && globs(
                        q,
                        name.skip(n),
                    );
                if globs(rest, name.take(n)) {
                    assert(globs(rest + q, name));
                } else {
                    let tail = name.skip(1);
                    assert(name.take(n).skip(1) =~= tail.take(n - 1));
                    assert(name.skip(n) =~= tail.skip(n - 1));
                    assert(globs(p, tail.take(n - 1)));
                    assert(globs(p + q, tail));
                }
            }
        } else {
            if name.len() > 0 {
                let tail = name.skip(1);
                patterns_match_part_by_part(rest, q, tail);
                if globs(p + q, name) {
                    let n = choose|n: int|
                        0 <= n <= tail.len() && #[trigger] globs(rest, tail.take(n)) && globs(
                            q,
                            tail.skip(n),
                        );
                    assert(name.take(n + 1).skip(1) =~= tail.take(n));
                    assert(name.take(n + 1).first() == name.first());
                    assert(name.skip(n + 1) =~= tail.skip(n));
                    assert(globs(p, name.take(n + 1)));
                }
                if exists|n: int|
                    0 <= n <= name.len() && #[trigger] globs(p, name.take(n)) && globs(
                        q,
                        name.skip(n),
                    ) {
                    let n = choose|n: int|
                        0 <= n <= name.len() && #[trigger] globs(p, name.take(n)) && globs(
                            q,
                            name.skip(n),
                        );
                    assert(name.take(n).len() > 0);
                    assert(name.take(n).skip(1) =~= tail.take(n - 1));
                    assert(name.take(n).first() == name.first());
                    assert(name.skip(n) =~= tail.skip(n - 1));
                    assert(globs(rest, tail.take(n - 1)));
                }
            }
        }
    }
}

/// The parts that patterns are made of: a star matches every run, a question
/// mark any one character, every other character itself, and nothing
/// nothing. Case counts, and a separator is like any other character.
pub proof fn parts_match_what_they_stand_for(c: char, name: Seq<char>)
    ensures
        globs(seq!['*'], name),
        globs(seq!['?'], name) <==> name.len() == 1,
        c != '*' && c != '?' ==> (globs(seq![c], name) <==> name == seq![c]),
        globs(Seq::empty(), name) <==> name.len() == 0,
{
    star_matches_everything(name);
    assert(seq!['?'].skip(1) =~= Seq::<char>::empty());
    assert(seq![c].skip(1) =~= Seq::<char>::empty());
    assert(globs(Seq::<char>::empty(), name.skip(1)) == (name.skip(1).len() == 0));
    assert(seq!['?'].first() == '?' && seq![c].first() == c);
    if name.len() == 1 {
        assert(name.skip(1) =~= Seq::<char>::empty());
        assert(name =~= seq![name[0]]);
    }
    if name == seq![c] {
        assert(name.len() == 1);
    }
}

/// A filter lets a name through exactly where an include pattern matches it,
/// or there is none, and no exclude pattern does.
pub proof fn filters_pass_what_is_asked_for(filter: FileFilter, name: Seq<char>)
    ensures
        filter.keeps(name) <==> {
            &&& filter.includes@.len() > 0 ==> exists|i: int|
                0 <= i < filter.includes@.len() && globs(#[trigger] filter.includes@[i]@, name)
            &&& forall|i: int|
                0 <= i < filter.excludes@.len() ==> !globs(#[trigger] filter.excludes@[i]@, name)
        },
{
}

} // verus!
