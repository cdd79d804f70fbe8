//! Sequences of characters and bytes: splitting at separators, and moving
//! between `String` and `Vec<char>`.

use vstd::prelude::*;

verus! {

/// The pieces of `s` between its separators, in order.
///
/// There is always at least one piece; `n` separators give `n + 1` pieces,
/// some of which may be empty. No piece holds a separator, and the pieces
/// with one separator between two of them make up `s` (see
/// [`lemma_split_pieces_hold_no_separator`] and [`lemma_split_tiles`]).
pub open spec fn split<T>(s: Seq<T>, is_sep: spec_fn(T) -> bool) -> Seq<Seq<T>>
    decreases s.len(),
{
    if s.len() == 0 {
        seq![Seq::<T>::empty()]
    } else {
        let before = split(s.drop_last(), is_sep);
        if is_sep(s.last()) {
            before.push(Seq::<T>::empty())
        } else {
            before.drop_last().push(before.last().push(s.last()))
        }
    }
}

/// The predicate that holds of the elements of `seps`.
pub open spec fn one_of<T>(seps: Seq<T>) -> spec_fn(T) -> bool {
    |c: T| seps.contains(c)
}

/// The views of a sequence of strings, in the same order.
pub open spec fn texts(strings: Seq<String>) -> Seq<Seq<char>> {
    Seq::new(strings.len(), |i: int| strings[i]@)
}

/// Whether `s` ends with `suffix`.
pub open spec fn ends_with<T>(s: Seq<T>, suffix: Seq<T>) -> bool {
    suffix.len() <= s.len() && s.subrange(s.len() - suffix.len(), s.len() as int) == suffix
}

/// Whether every range lies in a sequence of length `len`, start before end.
pub open spec fn ranges_within(ranges: Seq<(usize, usize)>, len: nat) -> bool {
    forall|i: int| 0 <= i < ranges.len() ==> (#[trigger] ranges[i]).0 <= ranges[i].1 <= len
}

/// Whether the ranges tile a sequence of length `len`: the first starts at
/// 0, each next one starts one past the end of the one before (the place of
/// the separator), and the last ends at `len`.
pub open spec fn ranges_tile(ranges: Seq<(usize, usize)>, len: nat) -> bool {
    &&& ranges.len() >= 1
    &&& ranges[0].0 == 0
    &&& ranges.last().1 == len
    &&& forall|i: int| 1 <= i < ranges.len() ==> (#[trigger] ranges[i]).0 == ranges[i - 1].1 + 1
}

/// The parts of `s` that the ranges cut out, in the order of the ranges.
pub open spec fn pieces<T>(s: Seq<T>, ranges: Seq<(usize, usize)>) -> Seq<Seq<T>> {
    Seq::new(ranges.len(), |i: int| s.subrange(ranges[i].0 as int, ranges[i].1 as int))
}

/// A split always yields at least one piece.
pub proof fn lemma_split_nonempty<T>(s: Seq<T>, is_sep: spec_fn(T) -> bool)
    ensures
        split(s, is_sep).len() >= 1,
    decreases s.len(),
{
    if s.len() > 0 {
        lemma_split_nonempty(s.drop_last(), is_sep);
    }
}

/// No piece of a split holds a separator.
pub proof fn lemma_split_pieces_hold_no_separator<T>(s: Seq<T>, is_sep: spec_fn(T) -> bool)
    ensures
        forall|i: int, j: int|
            0 <= i < split(s, is_sep).len() && 0 <= j < split(s, is_sep)[i].len() ==> !is_sep(
                #[trigger] split(s, is_sep)[i][j],
            ),
    decreases s.len(),
{
    if s.len() > 0 {
        lemma_split_nonempty(s.drop_last(), is_sep);
        lemma_split_pieces_hold_no_separator(s.drop_last(), is_sep);
    }
}

/// Where piece `k` starts in the sequence that was split: behind the
/// pieces before it and one separator after each of them.
pub open spec fn offset_of<T>(pieces: Seq<Seq<T>>, k: int) -> int
    decreases k,
{
    if k <= 0 {
        0
    } else {
        offset_of(pieces, k - 1) + pieces[k - 1].len() + 1
    }
}

/// Whether piece `k` is the part of `s` that starts at its offset.
pub open spec fn lies_at<T>(s: Seq<T>, pieces: Seq<Seq<T>>, k: int) -> bool {
    &&& 0 <= offset_of(pieces, k)
    &&& offset_of(pieces, k) + pieces[k].len() <= s.len()
    &&& pieces[k] == s.subrange(offset_of(pieces, k), offset_of(pieces, k) + pieces[k].len())
}

/// Whether a separator follows piece `k` in `s`.
pub open spec fn separator_follows<T>(
    s: Seq<T>,
    is_sep: spec_fn(T) -> bool,
    pieces: Seq<Seq<T>>,
    k: int,
) -> bool {
    is_sep(s[offset_of(pieces, k) + pieces[k].len()])
}

/// Whether the pieces lie in `s` one behind the other, with exactly one
/// separator between two of them, and cover it all.
pub open spec fn tiles<T>(s: Seq<T>, is_sep: spec_fn(T) -> bool, pieces: Seq<Seq<T>>) -> bool {
    &&& pieces.len() >= 1
    &&& offset_of(pieces, pieces.len() as int) == s.len() + 1
    &&& forall|k: int| 0 <= k < pieces.len() ==> #[trigger] lies_at(s, pieces, k)
    &&& forall|k: int| 0 <= k < pieces.len() - 1 ==> #[trigger] separator_follows(s, is_sep, pieces, k)
}

/// Where a piece starts depends on the pieces before it alone.
proof fn lemma_offset_of_prefix<T>(a: Seq<Seq<T>>, b: Seq<Seq<T>>, k: int)
    requires
        0 <= k <= a.len(),
        k <= b.len(),
        forall|j: int| 0 <= j < k ==> a[j] == b[j],
    ensures
        offset_of(a, k) == offset_of(b, k),
    decreases k,
{
    if k > 0 {
        lemma_offset_of_prefix(a, b, k - 1);
    }
}

/// A separator behind a tiled sequence starts a new, empty piece.
proof fn lemma_tiles_with_separator<T>(
    t: Seq<T>,
    sep: T,
    is_sep: spec_fn(T) -> bool,
    pieces: Seq<Seq<T>>,
)
    requires
        tiles(t, is_sep, pieces),
        is_sep(sep),
    ensures
        tiles(t.push(sep), is_sep, pieces.push(Seq::empty())),
{
    let s = t.push(sep);
    let grown = pieces.push(Seq::<T>::empty());
    let n = pieces.len() as int;
    assert forall|k: int| 0 <= k <= n implies offset_of(grown, k) == offset_of(pieces, k) by {
        lemma_offset_of_prefix(grown, pieces, k);
    }
    assert(offset_of(grown, n + 1) == offset_of(grown, n) + grown[n].len() + 1);
    assert forall|k: int| 0 <= k < grown.len() implies #[trigger] lies_at(s, grown, k) by {
        if k < n {
            assert(lies_at(t, pieces, k));
            assert(grown[k] == pieces[k]);
            assert(t.subrange(offset_of(pieces, k), offset_of(pieces, k) + pieces[k].len())
                == s.subrange(offset_of(pieces, k), offset_of(pieces, k) + pieces[k].len()));
        } else {
            assert(grown[k] == s.subrange(s.len() as int, s.len() as int));
        }
    }
    assert forall|k: int| 0 <= k < grown.len() - 1 implies #[trigger] separator_follows(
        s,
        is_sep,
        grown,
        k,
    ) by {
        let at = offset_of(pieces, k) + pieces[k].len();
        assert(grown[k] == pieces[k]);
        assert(offset_of(pieces, k + 1) == at + 1);
        if k < n - 1 {
            assert(separator_follows(t, is_sep, pieces, k));
            assert(lies_at(t, pieces, k));
            assert(lies_at(t, pieces, k + 1));
            assert(s[at] == t[at]);
        } else {
            assert(s[at] == sep);
        }
    }
}

/// Any other element behind a tiled sequence makes the last piece longer.
proof fn lemma_tiles_with_element<T>(
    t: Seq<T>,
    x: T,
    is_sep: spec_fn(T) -> bool,
    pieces: Seq<Seq<T>>,
)
    requires
        tiles(t, is_sep, pieces),
    ensures
        tiles(t.push(x), is_sep, pieces.drop_last().push(pieces.last().push(x))),
{
    let s = t.push(x);
    let n = pieces.len() as int;
    let grown = pieces.drop_last().push(pieces.last().push(x));
    assert forall|k: int| 0 <= k < n implies offset_of(grown, k) == offset_of(pieces, k) by {
        lemma_offset_of_prefix(grown, pieces, k);
    }
    assert(offset_of(grown, n) == offset_of(grown, n - 1) + grown[n - 1].len() + 1);
    assert(offset_of(pieces, n) == offset_of(pieces, n - 1) + pieces[n - 1].len() + 1);
    assert forall|k: int| 0 <= k < grown.len() implies #[trigger] lies_at(s, grown, k) by {
        assert(lies_at(t, pieces, k));
        if k < n - 1 {
            assert(grown[k] == pieces[k]);
            assert(t.subrange(offset_of(pieces, k), offset_of(pieces, k) + pieces[k].len())
                == s.subrange(offset_of(pieces, k), offset_of(pieces, k) + pieces[k].len()));
        } else {
            assert(grown[k] == pieces[k].push(x));
            assert(pieces[k].push(x) == s.subrange(
                offset_of(pieces, k),
                offset_of(pieces, k) + pieces[k].len() + 1,
            ));
        }
    }
    assert forall|k: int| 0 <= k < grown.len() - 1 implies #[trigger] separator_follows(
        s,
        is_sep,
        grown,
        k,
    ) by {
        let at = offset_of(pieces, k) + pieces[k].len();
        assert(grown[k] == pieces[k]);
        assert(offset_of(pieces, k + 1) == at + 1);
        assert(separator_follows(t, is_sep, pieces, k));
        assert(lies_at(t, pieces, k));
        assert(lies_at(t, pieces, k + 1));
        assert(s[at] == t[at]);
    }
}

/// The pieces of a split lie in the sequence one behind the other, with
/// exactly one separator between two of them, and cover it all.
pub proof fn lemma_split_tiles<T>(s: Seq<T>, is_sep: spec_fn(T) -> bool)
    ensures
        tiles(s, is_sep, split(s, is_sep)),
    decreases s.len(),
{
    if s.len() == 0 {
        let pieces = split(s, is_sep);
        assert(offset_of(pieces, 1) == offset_of(pieces, 0) + pieces[0].len() + 1);
        assert(pieces[0] == s.subrange(0, 0));
    } else {
        let t = s.drop_last();
        lemma_split_tiles(t, is_sep);
        assert(t.push(s.last()) == s);
        if is_sep(s.last()) {
            lemma_tiles_with_separator(t, s.last(), is_sep, split(t, is_sep));
        } else {
            lemma_tiles_with_element(t, s.last(), is_sep, split(t, is_sep));
        }
    }
}

/// Splitting `a`, one separator, then `b`, where `b` holds no separator:
/// the pieces of `a`, then `b`.
pub proof fn lemma_split_append_piece<T>(a: Seq<T>, sep: T, b: Seq<T>, is_sep: spec_fn(T) -> bool)
    requires
        is_sep(sep),
        forall|j: int| 0 <= j < b.len() ==> !is_sep(#[trigger] b[j]),
    ensures
        split(a.push(sep) + b, is_sep) == split(a, is_sep).push(b),
    decreases b.len(),
{
    if b.len() == 0 {
        assert(a.push(sep).drop_last() == a);
        assert(b == Seq::<T>::empty());
    } else {
        let whole = a.push(sep) + b;
        lemma_split_append_piece(a, sep, b.drop_last(), is_sep);
        assert(whole.drop_last() == a.push(sep) + b.drop_last());
        assert(b.drop_last().push(b.last()) == b);
    }
}

/// The characters of `s`, one element each.
pub fn chars_of(s: &str) -> (r: Vec<char>)
    ensures
        r@ == s@,
{
    let mut out: Vec<char> = Vec::new();
    for c in it: s.chars()
        invariant
            it.seq() == s@,
            out@ == it.seq().take(it.index() as int),
    {
        out.push(c);
    }
    assert(s@.take(s@.len() as int) == s@);
    out
}

/// Appends the characters `cs[from..to]` to `dest`.
pub fn append_chars(dest: &mut String, cs: &Vec<char>, from: usize, to: usize)
    requires
        from <= to <= cs@.len(),
    ensures
        final(dest)@ == old(dest)@ + cs@.subrange(from as int, to as int),
{
    let mut i: usize = from;
    while i < to
        invariant
            from <= i <= to <= cs@.len(),
            dest@ == old(dest)@ + cs@.subrange(from as int, i as int),
        decreases to - i,
    {
        dest.push(cs[i]);
        i = i + 1;
    }
}

/// The characters `cs[from..to]` as a vector of their own.
pub fn chars_between(cs: &Vec<char>, from: usize, to: usize) -> (r: Vec<char>)
    requires
        from <= to <= cs@.len(),
    ensures
        r@ == cs@.subrange(from as int, to as int),
{
    let mut out: Vec<char> = Vec::new();
    let mut i: usize = from;
    while i < to
        invariant
            from <= i <= to <= cs@.len(),
            out@ == cs@.subrange(from as int, i as int),
        decreases to - i,
    {
        out.push(cs[i]);
        i = i + 1;
    }
    out
}

/// The characters `cs[from..to]` as a `String`.
pub fn string_of(cs: &Vec<char>, from: usize, to: usize) -> (r: String)
    requires
        from <= to <= cs@.len(),
    ensures
        r@ == cs@.subrange(from as int, to as int),
{
    let mut out = String::new();
    append_chars(&mut out, cs, from, to);
    out
}

/// Whether `c` is one of `seps`.
pub fn is_one_of(seps: &Vec<char>, c: char) -> (r: bool)
    ensures
        r == one_of(seps@)(c),
{
    let mut i: usize = 0;
    while i < seps.len()
        invariant
            i <= seps@.len(),
            forall|j: int| 0 <= j < i ==> seps@[j] != c,
        decreases seps@.len() - i,
    {
        if seps[i] == c {
            return true;
        }
        i = i + 1;
    }
    false
}

/// Whether `a[from..to]` holds exactly the characters of `b`.
pub fn same_chars(a: &Vec<char>, from: usize, to: usize, b: &Vec<char>) -> (r: bool)
    requires
        from <= to <= a@.len(),
    ensures
        r == (a@.subrange(from as int, to as int) == b@),
{
    if to - from != b.len() {
        return false;
    }
    let mut i: usize = 0;
    while i < b.len()
        invariant
            from <= to <= a@.len(),
            to - from == b@.len(),
            i <= b@.len(),
            forall|j: int| 0 <= j < i ==> a@[from + j] == b@[j],
        decreases b@.len() - i,
    {
        if a[from + i] != b[i] {
            return false;
        }
        i = i + 1;
    }
    assert(a@.subrange(from as int, to as int) =~= b@);
    true
}

/// Whether two texts hold the same characters.
pub fn same_text(a: &str, b: &str) -> (r: bool)
    ensures
        r == (a@ == b@),
{
    let a_chars = chars_of(a);
    let b_chars = chars_of(b);
    assert(a_chars@.subrange(0, a_chars@.len() as int) == a_chars@);
    same_chars(&a_chars, 0, a_chars.len(), &b_chars)
}

/// What holds while `s` is cut at its separators from left to right, with
/// the first `i` elements looked at: `done` are the ranges of the pieces
/// that a separator has ended, and the piece in the making starts at
/// `start`.
spec fn cut_so_far<T>(
    s: Seq<T>,
    is_sep: spec_fn(T) -> bool,
    done: Seq<(usize, usize)>,
    start: usize,
    i: usize,
) -> bool {
    &&& start <= i <= s.len()
    &&& ranges_within(done, s.len())
    &&& ranges_tile(done.push((start, i)), i as nat)
    &&& pieces(s, done).push(s.subrange(start as int, i as int)) == split(s.take(i as int), is_sep)
}

/// Before any element is looked at, nothing is done and the first piece
/// starts.
proof fn lemma_cut_starts<T>(s: Seq<T>, is_sep: spec_fn(T) -> bool)
    ensures
        cut_so_far(s, is_sep, Seq::empty(), 0, 0),
{
    let done = Seq::<(usize, usize)>::empty();
    assert(s.take(0) == Seq::<T>::empty());
    assert(pieces(s, done).push(s.subrange(0, 0)) == seq![Seq::<T>::empty()]);
}

/// Looking at one more element: a separator ends the piece in the making
/// and starts the next one behind it, any other element makes the piece
/// longer.
proof fn lemma_cut_goes_on<T>(
    s: Seq<T>,
    is_sep: spec_fn(T) -> bool,
    done: Seq<(usize, usize)>,
    start: usize,
    i: usize,
)
    requires
        cut_so_far(s, is_sep, done, start, i),
        i < s.len(),
        i < usize::MAX,
    ensures
        is_sep(s[i as int]) ==> cut_so_far(
            s,
            is_sep,
            done.push((start, i)),
            (i + 1) as usize,
            (i + 1) as usize,
        ),
        !is_sep(s[i as int]) ==> cut_so_far(s, is_sep, done, start, (i + 1) as usize),
{
    let next = (i + 1) as usize;
    let tiles = done.push((start, i));
    let before = split(s.take(i as int), is_sep);
    assert(forall|k: int| 0 <= k < done.len() ==> tiles[k] == done[k]);
    assert(s.take(i + 1).drop_last() == s.take(i as int));
    assert(s.take(i + 1).last() == s[i as int]);
    if is_sep(s[i as int]) {
        assert(pieces(s, tiles) == pieces(s, done).push(s.subrange(start as int, i as int)));
        assert(s.subrange(i + 1, i + 1) == Seq::<T>::empty());
        let next_tiles = tiles.push((next, next));
        assert forall|k: int| 1 <= k < next_tiles.len() implies (#[trigger] next_tiles[k]).0
            == next_tiles[k - 1].1 + 1 by {
            if k < tiles.len() {
                assert(next_tiles[k] == tiles[k]);
                assert(next_tiles[k - 1] == tiles[k - 1]);
            }
        }
        assert forall|k: int| 0 <= k < tiles.len() implies (#[trigger] tiles[k]).0 <= tiles[k].1
            <= s.len() by {
            if k < done.len() {
                assert(tiles[k] == done[k]);
            }
        }
    } else {
        assert(before.drop_last() == pieces(s, done));
        assert(before.last().push(s[i as int]) == s.subrange(start as int, i + 1));
        let next_tiles = done.push((start, next));
        assert forall|k: int| 1 <= k < next_tiles.len() implies (#[trigger] next_tiles[k]).0
            == next_tiles[k - 1].1 + 1 by {
            assert(next_tiles[k].0 == tiles[k].0);
            assert(next_tiles[k - 1] == tiles[k - 1]);
        }
    }
}

/// With every element looked at, the ranges that are done and the range of
/// the last piece are the ranges of the split.
proof fn lemma_cut_ends<T>(
    s: Seq<T>,
    is_sep: spec_fn(T) -> bool,
    done: Seq<(usize, usize)>,
    start: usize,
    i: usize,
)
    requires
        cut_so_far(s, is_sep, done, start, i),
        i == s.len(),
    ensures
        ranges_within(done.push((start, i)), s.len()),
        ranges_tile(done.push((start, i)), s.len()),
        pieces(s, done.push((start, i))) == split(s, is_sep),
{
    let all = done.push((start, i));
    assert(s.take(i as int) == s);
    assert(pieces(s, all) == pieces(s, done).push(s.subrange(start as int, i as int)));
    assert forall|k: int| 0 <= k < all.len() implies (#[trigger] all[k]).0 <= all[k].1
        <= s.len() by {
        if k < done.len() {
            assert(all[k] == done[k]);
        }
    }
}

/// Cuts `s` at every character of `seps`: the ranges of its pieces.
pub fn split_chars(s: &Vec<char>, seps: &Vec<char>) -> (r: Vec<(usize, usize)>)
    ensures
        ranges_within(r@, s@.len()),
        ranges_tile(r@, s@.len()),
        pieces(s@, r@) == split(s@, one_of(seps@)),
{
    let mut out: Vec<(usize, usize)> = Vec::new();
    let mut start: usize = 0;
    let mut i: usize = 0;
    proof {
        lemma_cut_starts(s@, one_of(seps@));
    }
    while i < s.len()
        invariant
            cut_so_far(s@, one_of(seps@), out@, start, i),
        decreases s@.len() - i,
    {
        proof {
            lemma_cut_goes_on(s@, one_of(seps@), out@, start, i);
        }
        if is_one_of(seps, s[i]) {
            out.push((start, i));
            start = i + 1;
        }
        i = i + 1;
    }
    proof {
        lemma_cut_ends(s@, one_of(seps@), out@, start, i);
    }
    out.push((start, i));
    out
}

/// Cuts `s` at every byte equal to `sep`: the ranges of its pieces.
pub fn split_bytes(s: &[u8], sep: u8) -> (r: Vec<(usize, usize)>)
    ensures
        ranges_within(r@, s@.len()),
        ranges_tile(r@, s@.len()),
        pieces(s@, r@) == split(s@, one_of(seq![sep])),
{
    let mut out: Vec<(usize, usize)> = Vec::new();
    let mut start: usize = 0;
    let mut i: usize = 0;
    proof {
        lemma_cut_starts(s@, one_of(seq![sep]));
    }
    while i < s.len()
        invariant
            cut_so_far(s@, one_of(seq![sep]), out@, start, i),
        decreases s@.len() - i,
    {
        proof {
            lemma_cut_goes_on(s@, one_of(seq![sep]), out@, start, i);
            assert(one_of(seq![sep])(s@[i as int]) == (s@[i as int] == sep)) by {
                assert(seq![sep][0] == sep);
            }
        }
        if s[i] == sep {
            out.push((start, i));
            start = i + 1;
        }
        i = i + 1;
    }
    proof {
        lemma_cut_ends(s@, one_of(seq![sep]), out@, start, i);
    }
    out.push((start, i));
    out
}

} // verus!
