//! Guards against writing where nobody meant to: no path is written through
//! a symlink that was planted there.

use crate::check;
use crate::error::IaGetError;
use crate::plan;
use crate::plan::join_output_dir;
use crate::text;
use vstd::prelude::*;

verus! {

/// What the refusal to write through a symlink reads.
pub open spec fn symlink_refusal(path: Seq<char>) -> Seq<char> {
    path + " is a symlink; refusing to write through it"@
}

/// Whether an error is the refusal to write through a symlink.
pub open spec fn is_refusal(e: IaGetError, path: Seq<char>) -> bool {
    e matches IaGetError::FileSystem { detail, source } && source is None && detail@
        == symlink_refusal(path)
}

/// Refuses to write through a symlink. A path where nothing stands is none.
pub fn ensure_not_symlink(path: &str, is_symlink: bool) -> (r: Result<(), IaGetError>)
    ensures
        r is Err <==> is_symlink,
        r matches Err(e) ==> is_refusal(e, path@),
{
    if is_symlink {
        return Err(
            IaGetError::FileSystem {
                detail: text::concat(path, " is a symlink; refusing to write through it"),
                source: None,
            },
        );
    }
    Ok(())
}

/// The last of a path's pieces that names something: neither nothing nor the
/// directory itself.
pub open spec fn last_name(parts: Seq<Seq<char>>) -> Option<Seq<char>>
    decreases parts.len(),
{
    if parts.len() == 0 {
        None
    } else if parts.last().len() == 0 || parts.last() == "."@ {
        last_name(parts.drop_last())
    } else {
        Some(parts.last())
    }
}

/// The directory that a file lies in, where it has a name of its own: not
/// the current directory, the root, or one above.
pub open spec fn parent_of(file_path: Seq<char>) -> Option<Seq<char>> {
    let dirs = text::split(file_path, '/').drop_last();
    match last_name(dirs) {
        None => None,
        Some(name) => if name == ".."@ {
            None
        } else {
            Some(text::join(dirs, "/"@))
        },
    }
}

/// The directory that a file lies in, where it has a name of its own.
pub fn parent_directory(file_path: &str) -> (r: Option<String>)
    ensures
        text::maybe(r) == parent_of(file_path@),
{
    let parts = text::split_chars(&text::chars_of(file_path), '/');
    let ghost pieces = text::split(file_path@, '/');
    let ghost dirs = pieces.drop_last();
    proof {
        text::lemma_split_pieces(file_path@, '/');
    }
    let mut end: usize = parts.len() - 1;
    assert(dirs.take(end as int) =~= dirs);
    while end > 0
        invariant
            end < parts.len(),
            text::rows(parts@) == pieces,
            pieces == text::split(file_path@, '/'),
            dirs == pieces.drop_last(),
            last_name(dirs) == last_name(dirs.take(end as int)),
        decreases end,
    {
        let at: usize = end - 1;
        let ghost front = dirs.take(end as int);
        assert(parts@[at as int]@ == pieces[at as int]);
        assert(front.last() == pieces[at as int]);
        assert(front.drop_last() =~= dirs.take(at as int));
        if parts[at].len() > 0 && !text::is_text(&parts[at], ".") {
            if text::is_text(&parts[at], "..") {
                return None;
            }
            let list = plan::ancestor_components(file_path);
            let ghost paths = plan::ancestors(file_path@);
            assert(text::texts(list@).len() == paths.len());
            let last: usize = list.len() - 1;
            proof {
                assert(list@[last as int]@ == text::texts(list@)[last as int]);
                assert(pieces.take(last + 1) =~= dirs);
            }
            return Some(list[last].clone());
        }
        end = at;
    }
    None
}

/// The directories between a file and the output directory, innermost first.
/// The output directory itself, and what lies above it, is the user's choice.
pub open spec fn guarded_dirs(file_path: Seq<char>, output_dir: Seq<char>) -> Seq<Seq<char>> {
    let inner = plan::ancestors(check::relative(file_path, output_dir));
    let is_below = output_dir.len() > 0 && (output_dir + "/"@).is_prefix_of(file_path);
    if parent_of(file_path) is None {
        Seq::empty()
    } else {
        Seq::new(
            inner.len(),
            |i: int|
                if is_below {
                    plan::below(output_dir, inner[inner.len() - 1 - i])
                } else {
                    inner[inner.len() - 1 - i]
                },
        )
    }
}

/// The directories between a file and the output directory, innermost first.
pub fn directories_to_guard(file_path: &str, output_dir: &str) -> (r: Vec<String>)
    ensures
        text::texts(r@) == guarded_dirs(file_path@, output_dir@),
{
    let mut list: Vec<String> = Vec::new();
    if parent_directory(file_path).is_none() {
        assert(text::texts(list@) =~= Seq::empty());
        return list;
    }
    let relative = check::expected_rel(file_path, output_dir);
    let inner = plan::ancestor_components(&relative);
    let is_below = !output_dir.is_empty() && text::starts_with(
        &text::chars_of(file_path),
        &text::concat(output_dir, "/"),
    );
    let ghost wanted = guarded_dirs(file_path@, output_dir@);
    let ghost paths = plan::ancestors(relative@);
    assert(text::texts(inner@).len() == paths.len());
    let mut i: usize = 0;
    while i < inner.len()
        invariant
            i <= inner.len(),
            text::texts(inner@) == paths,
            inner@.len() == paths.len(),
            paths == plan::ancestors(check::relative(file_path@, output_dir@)),
            wanted == guarded_dirs(file_path@, output_dir@),
            wanted.len() == paths.len(),
            parent_of(file_path@) is Some,
            is_below == (output_dir@.len() > 0 && (output_dir@ + "/"@).is_prefix_of(file_path@)),
            list@.len() == i,
            forall|k: int| 0 <= k < i ==> (#[trigger] list@[k])@ == wanted[k],
        decreases inner.len() - i,
    {
        let at: usize = inner.len() - 1 - i;
        assert(inner@[at as int]@ == paths[at as int]);
        if is_below {
            list.push(join_output_dir(output_dir, &inner[at]));
        } else {
            list.push(inner[at].clone());
        }
        i += 1;
    }
    assert(text::texts(list@) =~= wanted);
    list
}

/// Every directory that lies between the output directory and a file below
/// it is guarded: whatever server-given part of the path it comes from, none
/// is written through unseen.
pub proof fn every_directory_below_is_guarded(
    output_dir: Seq<char>,
    path: Seq<char>,
    dir: Seq<char>,
)
    requires
        parent_of(plan::below(output_dir, path)) is Some,
        plan::ancestors(path).contains(dir),
    ensures
        guarded_dirs(plan::below(output_dir, path), output_dir).contains(
            plan::below(output_dir, dir),
        ),
{
    let inner = plan::ancestors(path);
    let at = inner.index_of(dir);
    let file_path = plan::below(output_dir, path);
    check::relative_undoes_below(path, output_dir);
    if output_dir.len() > 0 {
        assert(file_path.take((output_dir + "/"@).len() as int) =~= output_dir + "/"@);
    }
    assert(guarded_dirs(file_path, output_dir)[inner.len() - 1 - at] == plan::below(
        output_dir,
        dir,
    ));
}

/// Refuses to write below a directory that is a symlink: the first of them
/// is named. `links` says of each directory whether it is one.
pub fn refuse_symlinks(dirs: &Vec<String>, links: &Vec<bool>) -> (r: Result<(), IaGetError>)
    requires
        dirs@.len() == links@.len(),
    ensures
        r is Ok <==> forall|i: int| 0 <= i < links@.len() ==> !#[trigger] links@[i],
        r matches Err(e) ==> exists|i: int|
            0 <= i < links@.len() && #[trigger] links@[i] && (forall|k: int|
                0 <= k < i ==> !#[trigger] links@[k]) && is_refusal(e, dirs@[i]@),
{
    let mut i: usize = 0;
    while i < dirs.len()
        invariant
            i <= dirs.len(),
            dirs@.len() == links@.len(),
            forall|k: int| 0 <= k < i ==> !#[trigger] links@[k],
        decreases dirs.len() - i,
    {
        if links[i] {
            return ensure_not_symlink(&dirs[i], true);
        }
        i += 1;
    }
    Ok(())
}

/// A file lies in the directory that its path goes on from, where that has a
/// name of its own; a bare name lies in none, nor does one directly in the
/// root, the current directory or the one above.
pub proof fn files_lie_in_their_directory(dir: Seq<char>, last: Seq<char>, name: Seq<char>)
    requires
        !name.contains('/'),
        !last.contains('/'),
    ensures
        parent_of(name) is None,
        parent_of(seq!['/'] + name) is None,
        parent_of(seq!['.', '/'] + name) is None,
        parent_of(seq!['.', '.', '/'] + name) is None,
        last.len() > 0 && last != seq!['.'] && last != seq!['.', '.'] ==> parent_of(
            last + seq!['/'] + name,
        ) == Some(last) && parent_of(dir + seq!['/'] + last + seq!['/'] + name) == Some(
            dir + seq!['/'] + last,
        ),
        parent_of(dir + seq!['/', '.', '.', '/'] + name) is None,
{
    reveal_strlit("/");
    reveal_strlit(".");
    reveal_strlit("..");
    assert("/"@ =~= seq!['/']);
    assert("."@ =~= seq!['.']);
    assert(".."@ =~= seq!['.', '.']);
    let none: Seq<Seq<char>> = Seq::empty();
    text::lemma_split_whole(name, '/');
    assert(text::split(name, '/').drop_last() =~= none);
    lemma_directory_of(Seq::empty(), name);
    assert(Seq::<char>::empty() + seq!['/'] + name =~= seq!['/'] + name);
    text::lemma_split_whole(Seq::empty(), '/');
    assert(seq![Seq::<char>::empty()].drop_last() =~= none);
    lemma_directory_of(seq!['.'], name);
    assert(seq!['.'] + seq!['/'] + name =~= seq!['.', '/'] + name);
    text::lemma_split_whole(seq!['.'], '/');
    assert(seq![seq!['.']].drop_last() =~= none);
    lemma_directory_of(seq!['.', '.'], name);
    assert(seq!['.', '.'] + seq!['/'] + name =~= seq!['.', '.', '/'] + name);
    text::lemma_split_whole(seq!['.', '.'], '/');
    lemma_directory_of(last, name);
    text::lemma_split_whole(last, '/');
    lemma_directory_of(dir + seq!['/'] + last, name);
    text::lemma_split_append(dir, last, '/');
    lemma_directory_of(dir + seq!['/'] + seq!['.', '.'], name);
    text::lemma_split_append(dir, seq!['.', '.'], '/');
    assert(dir + seq!['/'] + seq!['.', '.'] + seq!['/'] + name =~= dir + seq!['/', '.', '.', '/']
        + name);
}

proof fn lemma_directory_of(dir: Seq<char>, name: Seq<char>)
    requires
        !name.contains('/'),
    ensures
        text::split(dir + seq!['/'] + name, '/').drop_last() == text::split(dir, '/'),
        text::join(text::split(dir, '/'), "/"@) == dir,
{
    reveal_strlit("/");
    assert("/"@ =~= seq!['/']);
    text::lemma_split_append(dir, name, '/');
    assert(text::split(dir, '/').push(name).drop_last() =~= text::split(dir, '/'));
    text::lemma_join_split(dir, '/');
}

/// Nothing but the directories between the output directory and a file is
/// guarded, and each comes before those that it lies in.
pub proof fn guarded_directories_lie_between(
    output_dir: Seq<char>,
    path: Seq<char>,
    i: int,
    j: int,
)
    requires
        parent_of(plan::below(output_dir, path)) is Some,
        0 <= i < j < guarded_dirs(plan::below(output_dir, path), output_dir).len(),
    ensures
        ({
            let dirs = guarded_dirs(plan::below(output_dir, path), output_dir);
            &&& (dirs[i] + "/"@).is_prefix_of(plan::below(output_dir, path))
            &&& output_dir.len() > 0 ==> (output_dir + "/"@).is_prefix_of(dirs[i])
            &&& (dirs[j] + "/"@).is_prefix_of(dirs[i])
        }),
{
    let inner = plan::ancestors(path);
    let file_path = plan::below(output_dir, path);
    let dirs = guarded_dirs(file_path, output_dir);
    let deep = inner[inner.len() - 1 - i];
    let flat = inner[inner.len() - 1 - j];
    let prefix = output_dir + "/"@;
    check::relative_undoes_below(path, output_dir);
    if output_dir.len() > 0 {
        assert(file_path.take(prefix.len() as int) =~= prefix);
    }
    assert(inner.contains(deep));
    plan::implied_directories_are_the_ways_to_a_path(path, deep);
    lemma_ancestors_nest(path, inner.len() - 1 - j, inner.len() - 1 - i);
    if output_dir.len() > 0 {
        assert(dirs[i] =~= prefix + deep);
        assert(dirs[j] =~= prefix + flat);
        assert((prefix + deep).take(prefix.len() as int) =~= prefix);
        let rest = path.skip((deep + "/"@).len() as int);
        assert(path =~= deep + "/"@ + rest);
        assert(file_path =~= (dirs[i] + "/"@) + rest);
        assert(file_path.take((dirs[i] + "/"@).len() as int) =~= dirs[i] + "/"@);
        let between = deep.skip((flat + "/"@).len() as int);
        assert(deep =~= flat + "/"@ + between);
        assert(dirs[i] =~= (dirs[j] + "/"@) + between);
        assert(dirs[i].take((dirs[j] + "/"@).len() as int) =~= dirs[j] + "/"@);
    }
}

proof fn lemma_ancestors_nest(path: Seq<char>, k: int, l: int)
    requires
        0 <= k < l < plan::ancestors(path).len(),
    ensures
        (plan::ancestors(path)[k] + "/"@).is_prefix_of(plan::ancestors(path)[l]),
{
    reveal_strlit("/");
    assert("/"@ =~= seq!['/']);
    let parts = text::split(path, '/');
    let a = parts.take(k + 1);
    let b = parts.subrange(k + 1, l + 1);
    assert(a + b =~= parts.take(l + 1));
    text::joining_goes_piece_by_piece(a, b, "/"@);
    let flat = plan::ancestors(path)[k];
    let deep = plan::ancestors(path)[l];
    assert(deep == flat + "/"@ + text::join(b, "/"@));
    assert(deep.take((flat + "/"@).len() as int) =~= flat + "/"@);
}

/// The refusal to write through a symlink names it.
pub proof fn refusals_name_the_link(e: IaGetError, path: Seq<char>)
    requires
        is_refusal(e, path),
    ensures
        e is FileSystem,
        path.is_prefix_of(e->FileSystem_detail@),
        e->FileSystem_source is None,
{
    let said = " is a symlink; refusing to write through it"@;
    assert((path + said).take(path.len() as int) =~= path);
}

} // verus!
