//! Paths as text with `/` between their segments: joining segments onto a
//! root, and deriving the destination of a clone from the path of its
//! locator.

use crate::text::{
    append_chars, chars_between, chars_of, ends_with, lemma_split_append_piece, one_of, pieces,
    ranges_within, same_chars, split, split_chars, string_of,
};
use vstd::prelude::*;

verus! {

/// The separator of path segments.
pub open spec fn slash() -> Seq<char> {
    seq!['/']
}

/// The suffix that is taken off the name of a repository.
pub open spec fn git_suffix() -> Seq<char> {
    seq!['.', 'g', 'i', 't']
}

/// The name of the directory that marks a checkout.
pub open spec fn metadata_dir_name() -> Seq<char> {
    seq!['.', 'g', 'i', 't']
}

/// `segment` without one trailing [`git_suffix`], where it has one.
pub open spec fn without_git_suffix(segment: Seq<char>) -> Seq<char> {
    if ends_with(segment, git_suffix()) {
        segment.take(segment.len() - 4)
    } else {
        segment
    }
}

/// `base` with `segment` joined on: a separator goes between them unless
/// `base` is empty or already ends with one. An empty segment adds nothing.
pub open spec fn push_segment(base: Seq<char>, segment: Seq<char>) -> Seq<char> {
    if segment.len() == 0 {
        base
    } else if base.len() == 0 || base.last() == '/' {
        base + segment
    } else {
        base.push('/') + segment
    }
}

/// `base` with each of `segments` joined on in turn.
pub open spec fn join_segments(base: Seq<char>, segments: Seq<Seq<char>>) -> Seq<char>
    decreases segments.len(),
{
    if segments.len() == 0 {
        base
    } else {
        push_segment(join_segments(base, segments.drop_last()), segments.last())
    }
}

/// The segments that the path of a locator gives to a destination: its
/// pieces between slashes, the final one without its [`git_suffix`].
pub open spec fn locator_segments(url_path: Seq<char>) -> Seq<Seq<char>> {
    let parts = split(url_path, one_of(slash()));
    parts.drop_last().push(without_git_suffix(parts.last()))
}

/// Where the repository at a locator with path `url_path` is cloned to
/// under `root`: the root, then every non-empty segment of the path, the
/// final segment without its trailing `.git`.
pub open spec fn destination_of(root: Seq<char>, url_path: Seq<char>) -> Seq<char> {
    join_segments(root, locator_segments(url_path))
}

/// The final piece of `path` between slashes.
pub open spec fn file_name_of(path: Seq<char>) -> Seq<char> {
    split(path, one_of(slash())).last()
}

/// The separator of a file name and its extension.
pub open spec fn dot() -> Seq<char> {
    seq!['.']
}

/// The extension of the final piece of `path`: what follows its last dot,
/// or nothing where the piece holds no dot, or only one that it starts
/// with.
pub open spec fn extension_of(path: Seq<char>) -> Seq<char> {
    let parts = split(file_name_of(path), one_of(dot()));
    if parts.len() < 2 || (parts.len() == 2 && parts[0].len() == 0) {
        Seq::<char>::empty()
    } else {
        parts.last()
    }
}

/// The directory that holds the final piece of `path`: empty where the path
/// holds no slash, `/` where its only slash is the first character, else
/// what stands before the final slash.
pub open spec fn parent_of(path: Seq<char>) -> Seq<char> {
    let name = file_name_of(path);
    if path.len() <= name.len() {
        Seq::<char>::empty()
    } else if path.len() == name.len() + 1 {
        slash()
    } else {
        path.take(path.len() - name.len() - 1)
    }
}

/// Joining segments on only ever adds to the end: what comes out starts
/// with the base.
pub proof fn lemma_join_starts_with_base(base: Seq<char>, segments: Seq<Seq<char>>)
    ensures
        join_segments(base, segments).len() >= base.len(),
        join_segments(base, segments).take(base.len() as int) == base,
    decreases segments.len(),
{
    if segments.len() > 0 {
        lemma_join_starts_with_base(base, segments.drop_last());
        let joined = join_segments(base, segments.drop_last());
        assert(joined.take(base.len() as int) == base);
        assert(push_segment(joined, segments.last()).take(base.len() as int) == joined.take(
            base.len() as int,
        ));
    } else {
        assert(base.take(base.len() as int) == base);
    }
}

/// Every destination starts with the root that it was derived under.
pub proof fn lemma_destination_starts_with_root(root: Seq<char>, url_path: Seq<char>)
    ensures
        destination_of(root, url_path).len() >= root.len(),
        destination_of(root, url_path).take(root.len() as int) == root,
{
    lemma_join_starts_with_base(root, locator_segments(url_path));
}

/// The destination of a locator whose path is `/a/b.git` is the root with
/// `a` and `b` joined on: `root/a/b` for a root that is not empty and does
/// not end with a slash.
pub proof fn lemma_destination_of_two_segments(root: Seq<char>, a: Seq<char>, b: Seq<char>)
    requires
        !a.contains('/'),
        !b.contains('/'),
    ensures
        destination_of(root, slash() + a + slash() + b + git_suffix()) == push_segment(
            push_segment(root, a),
            b,
        ),
        root.len() > 0 && root.last() != '/' && a.len() > 0 && b.len() > 0 ==> destination_of(
            root,
            slash() + a + slash() + b + git_suffix(),
        ) == root + slash() + a + slash() + b,
{
    let is_sep = one_of(slash());
    let none = Seq::<char>::empty();
    let name = b + git_suffix();
    let path = slash() + a + slash() + b + git_suffix();
    assert(is_sep('/')) by {
        assert(slash()[0] == '/');
    }
    lemma_split_append_piece(none, '/', a, is_sep);
    lemma_split_append_piece(none.push('/') + a, '/', name, is_sep);
    assert((slash() + a).push('/') + name == path);
    assert(name.subrange(name.len() - 4, name.len() as int) == git_suffix());
    let segments = locator_segments(path);
    assert(segments.drop_last() == seq![none, a]);
    assert(segments.drop_last().drop_last() == seq![none]);
    assert(segments.drop_last().drop_last().drop_last() == Seq::<Seq<char>>::empty());
    assert(join_segments(root, seq![none]) == root) by {
        assert(join_segments(root, Seq::<Seq<char>>::empty()) == root);
    }
    assert(join_segments(root, seq![none, a]) == push_segment(root, a));
}

/// The characters of [`git_suffix`].
fn git_suffix_chars() -> (r: Vec<char>)
    ensures
        r@ == git_suffix(),
{
    vec!['.', 'g', 'i', 't']
}

/// The characters of [`slash`].
fn slash_chars() -> (r: Vec<char>)
    ensures
        r@ == slash(),
{
    vec!['/']
}

/// Joins `cs[from..to]` onto `dest` as one segment.
fn push_segment_chars(
    dest: &mut String,
    needs_sep: &mut bool,
    cs: &Vec<char>,
    from: usize,
    to: usize,
)
    requires
        from <= to <= cs@.len(),
        *old(needs_sep) == (old(dest)@.len() > 0 && old(dest)@.last() != '/'),
    ensures
        final(dest)@ == push_segment(old(dest)@, cs@.subrange(from as int, to as int)),
        *final(needs_sep) == (final(dest)@.len() > 0 && final(dest)@.last() != '/'),
{
    if from < to {
        if *needs_sep {
            dest.push('/');
        }
        append_chars(dest, cs, from, to);
        *needs_sep = cs[to - 1] != '/';
    }
}

/// Where the repository at a locator with path `url_path` is cloned to
/// under `root`.
pub fn destination(root: &str, url_path: &str) -> (r: String)
    ensures
        r@ == destination_of(root@, url_path@),
{
    let root_chars = chars_of(root);
    let cs = chars_of(url_path);
    let seps = slash_chars();
    let suffix = git_suffix_chars();
    let ranges = split_chars(&cs, &seps);
    let ghost parts = split(cs@, one_of(slash()));
    let ghost segments = locator_segments(cs@);
    let mut dest = string_of(&root_chars, 0, root_chars.len());
    let mut needs_sep = root_chars.len() > 0 && root_chars[root_chars.len() - 1] != '/';
    let last = ranges.len() - 1;
    let mut k: usize = 0;
    while k < ranges.len()
        invariant
            k <= ranges@.len(),
            last == ranges@.len() - 1,
            ranges@.len() >= 1,
            ranges_within(ranges@, cs@.len()),
            pieces(cs@, ranges@) == parts,
            segments == parts.drop_last().push(without_git_suffix(parts.last())),
            suffix@ == git_suffix(),
            dest@ == join_segments(root@, segments.take(k as int)),
            needs_sep == (dest@.len() > 0 && dest@.last() != '/'),
        decreases ranges@.len() - k,
    {
        let (from, to) = ranges[k];
        let mut end = to;
        if k == last && to - from >= 4 && same_chars(&cs, to - 4, to, &suffix) {
            end = to - 4;
            proof {
                let piece = cs@.subrange(from as int, to as int);
                assert(piece.subrange(piece.len() - 4, piece.len() as int) == cs@.subrange(
                    to - 4,
                    to as int,
                ));
            }
        } else {
            proof {
                if k == last && to - from >= 4 {
                    let piece = cs@.subrange(from as int, to as int);
                    assert(piece.subrange(piece.len() - 4, piece.len() as int) == cs@.subrange(
                        to - 4,
                        to as int,
                    ));
                }
            }
        }
        proof {
            assert(segments.take(k + 1).drop_last() == segments.take(k as int));
        }
        push_segment_chars(&mut dest, &mut needs_sep, &cs, from, end);
        k = k + 1;
    }
    proof {
        assert(segments.take(k as int) == segments);
    }
    dest
}

/// The directory that holds the final piece of `path`.
pub fn parent(path: &str) -> (r: String)
    ensures
        r@ == parent_of(path@),
{
    let cs = chars_of(path);
    let seps = slash_chars();
    let ranges = split_chars(&cs, &seps);
    let (from, _) = ranges[ranges.len() - 1];
    if from == 0 {
        String::new()
    } else if from == 1 {
        string_of(&seps, 0, 1)
    } else {
        string_of(&cs, 0, from - 1)
    }
}

/// The extension of the final piece of `path`.
pub fn extension(path: &str) -> (r: String)
    ensures
        r@ == extension_of(path@),
{
    let cs = chars_of(path);
    let ranges = split_chars(&cs, &slash_chars());
    let (from, to) = ranges[ranges.len() - 1];
    let name = chars_between(&cs, from, to);
    let dots = vec!['.'];
    assert(dots@ == dot());
    let parts = split_chars(&name, &dots);
    let ghost pieces_of_name = split(name@, one_of(dot()));
    assert(pieces(name@, parts@)[0] == pieces_of_name[0]);
    if parts.len() < 2 || (parts.len() == 2 && parts[0].1 == parts[0].0) {
        String::new()
    } else {
        let (start, end) = parts[parts.len() - 1];
        assert(pieces(name@, parts@)[parts@.len() - 1] == pieces_of_name.last());
        string_of(&name, start, end)
    }
}

/// Whether the final piece of `path` between slashes is the name of the
/// directory that marks a checkout.
pub fn names_metadata_dir(path: &str) -> (r: bool)
    ensures
        r == (file_name_of(path@) == metadata_dir_name()),
{
    let cs = chars_of(path);
    let seps = slash_chars();
    let name = vec!['.', 'g', 'i', 't'];
    let ranges = split_chars(&cs, &seps);
    let (from, to) = ranges[ranges.len() - 1];
    same_chars(&cs, from, to, &name)
}

} // verus!
