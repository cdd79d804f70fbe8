//! The policy that tells, from one line of a subprocess's output, whether
//! the subprocess has failed or is stuck waiting for input.

use crate::text::{
    chars_of, lemma_split_pieces_hold_no_separator, one_of, pieces, ranges_within, same_chars,
    split, split_chars, string_of, texts,
};
use vstd::prelude::*;

verus! {

/// The characters that separate the tokens of a line: space and colon.
pub open spec fn token_separators() -> Seq<char> {
    seq![' ', ':']
}

/// The tokens of a line: what stands between its separators. Two
/// separators in a row have an empty token between them.
pub open spec fn tokens_of(line: Seq<char>) -> Seq<Seq<char>> {
    split(line, one_of(token_separators()))
}

/// Whether a token of `line` is one of `markers`.
pub open spec fn signals_failure(line: Seq<char>, markers: Seq<Seq<char>>) -> bool {
    exists|i: int| 0 <= i < tokens_of(line).len() && markers.contains(#[trigger] tokens_of(line)[i])
}

/// The first of `tokens` that is one of `markers`, if there is one.
pub open spec fn first_marker(tokens: Seq<Seq<char>>, markers: Seq<Seq<char>>) -> Option<
    Seq<char>,
>
    decreases tokens.len(),
{
    if tokens.len() == 0 {
        None
    } else {
        match first_marker(tokens.drop_last(), markers) {
            Some(marker) => Some(marker),
            None => if markers.contains(tokens.last()) {
                Some(tokens.last())
            } else {
                None
            },
        }
    }
}

/// The first token of `line` that is one of `markers`, if there is one.
pub open spec fn matched_marker(line: Seq<char>, markers: Seq<Seq<char>>) -> Option<Seq<char>> {
    first_marker(tokens_of(line), markers)
}

/// The fixed vocabulary of failure markers.
pub open spec fn standard_markers() -> Seq<Seq<char>> {
    seq![
        "Failed"@,
        "failed"@,
        "Enter passphrase"@,
        "enter passphrase"@,
        "Couldn't"@,
        "Could not"@,
        "couldn't"@,
        "could not"@,
        "Error"@,
        "error"@,
        "Traceback"@,
        "404"@,
        "Enter passphrase for key"@,
        "fatal"@,
        "denied"@,
    ]
}

/// There is a first marker among the tokens exactly when some token is a
/// marker, and the first marker is one of both.
pub proof fn lemma_first_marker(tokens: Seq<Seq<char>>, markers: Seq<Seq<char>>)
    ensures
        first_marker(tokens, markers).is_some() <==> exists|i: int|
            0 <= i < tokens.len() && markers.contains(#[trigger] tokens[i]),
        first_marker(tokens, markers) matches Some(marker) ==> markers.contains(marker)
            && tokens.contains(marker),
    decreases tokens.len(),
{
    if tokens.len() > 0 {
        let before = tokens.drop_last();
        lemma_first_marker(before, markers);
        if first_marker(before, markers).is_none() && !markers.contains(tokens.last()) {
            assert forall|i: int| 0 <= i < tokens.len() implies !markers.contains(
                #[trigger] tokens[i],
            ) by {
                if i < before.len() {
                    assert(before[i] == tokens[i]);
                }
            }
        }
    }
}

/// A marker that holds a space or a colon is never found: no token holds
/// a separator.
pub proof fn lemma_marker_with_separator_is_never_found(line: Seq<char>, marker: Seq<char>)
    requires
        marker.contains(' ') || marker.contains(':'),
    ensures
        !signals_failure(line, seq![marker]),
        matched_marker(line, seq![marker]).is_none(),
{
    lemma_split_pieces_hold_no_separator(line, one_of(token_separators()));
    lemma_first_marker(tokens_of(line), seq![marker]);
}

/// What the first marker is among the first `n` tokens, it is among all.
proof fn lemma_first_marker_stays(tokens: Seq<Seq<char>>, n: int, markers: Seq<Seq<char>>)
    requires
        0 <= n <= tokens.len(),
        first_marker(tokens.take(n), markers).is_some(),
    ensures
        first_marker(tokens, markers) == first_marker(tokens.take(n), markers),
    decreases tokens.len() - n,
{
    if n < tokens.len() {
        assert(tokens.take(n + 1).drop_last() == tokens.take(n));
        lemma_first_marker_stays(tokens, n + 1, markers);
    } else {
        assert(tokens.take(n) == tokens);
    }
}

/// A vocabulary of failure markers, ready to be looked for in lines.
#[derive(Clone, Debug, PartialEq, Eq)]
pub struct Classifier {
    markers: Vec<Vec<char>>,
}

impl Classifier {
    /// The markers that the classifier looks for.
    pub closed spec fn vocabulary(&self) -> Seq<Seq<char>> {
        Seq::new(self.markers@.len(), |i: int| self.markers@[i]@)
    }

    /// A classifier that looks for the given markers.
    pub fn new(markers: &Vec<String>) -> (r: Classifier)
        ensures
            r.vocabulary() == texts(markers@),
    {
        let mut out: Vec<Vec<char>> = Vec::new();
        let mut k: usize = 0;
        while k < markers.len()
            invariant
                k <= markers@.len(),
                out@.len() == k,
                forall|j: int| 0 <= j < k ==> (#[trigger] out@[j])@ == markers@[j]@,
            decreases markers@.len() - k,
        {
            out.push(chars_of(markers[k].as_str()));
            k = k + 1;
        }
        Classifier { markers: out }
    }

    /// A classifier that looks for the fixed vocabulary.
    pub fn standard() -> (r: Classifier)
        ensures
            r.vocabulary() == standard_markers(),
    {
        let mut out: Vec<Vec<char>> = Vec::new();
        out.push(chars_of("Failed"));
        out.push(chars_of("failed"));
        out.push(chars_of("Enter passphrase"));
        out.push(chars_of("enter passphrase"));
        out.push(chars_of("Couldn't"));
        out.push(chars_of("Could not"));
        out.push(chars_of("couldn't"));
        out.push(chars_of("could not"));
        out.push(chars_of("Error"));
        out.push(chars_of("error"));
        out.push(chars_of("Traceback"));
        out.push(chars_of("404"));
        out.push(chars_of("Enter passphrase for key"));
        out.push(chars_of("fatal"));
        out.push(chars_of("denied"));
        Classifier { markers: out }
    }

    /// Whether `cs[from..to]` is one of the markers.
    fn holds(&self, cs: &Vec<char>, from: usize, to: usize) -> (r: bool)
        requires
            from <= to <= cs@.len(),
        ensures
            r == self.vocabulary().contains(cs@.subrange(from as int, to as int)),
    {
        let mut k: usize = 0;
        while k < self.markers.len()
            invariant
                from <= to <= cs@.len(),
                k <= self.markers@.len(),
                forall|j: int|
                    0 <= j < k ==> (#[trigger] self.vocabulary()[j]) != cs@.subrange(
                        from as int,
                        to as int,
                    ),
            decreases self.markers@.len() - k,
        {
            if same_chars(cs, from, to, &self.markers[k]) {
                assert(self.vocabulary()[k as int] == cs@.subrange(from as int, to as int));
                return true;
            }
            k = k + 1;
        }
        false
    }

    /// The first token of `line` that is a marker, if there is one.
    pub fn find_marker(&self, line: &str) -> (r: Option<String>)
        ensures
            r.deep_view() == matched_marker(line@, self.vocabulary()),
            r.is_some() == signals_failure(line@, self.vocabulary()),
    {
        let cs = chars_of(line);
        let seps = vec![' ', ':'];
        let ranges = split_chars(&cs, &seps);
        let ghost tokens = tokens_of(line@);
        let mut k: usize = 0;
        proof {
            lemma_first_marker(tokens, self.vocabulary());
        }
        while k < ranges.len()
            invariant
                k <= ranges@.len(),
                cs@ == line@,
                ranges_within(ranges@, cs@.len()),
                pieces(cs@, ranges@) == tokens,
                tokens == tokens_of(line@),
                first_marker(tokens.take(k as int), self.vocabulary()).is_none(),
            decreases ranges@.len() - k,
        {
            let (from, to) = ranges[k];
            proof {
                assert(tokens.take(k + 1).drop_last() == tokens.take(k as int));
            }
            if self.holds(&cs, from, to) {
                proof {
                    lemma_first_marker_stays(tokens, k + 1, self.vocabulary());
                }
                return Some(string_of(&cs, from, to));
            }
            k = k + 1;
        }
        proof {
            assert(tokens.take(k as int) == tokens);
        }
        None
    }

    /// Whether `line` signals a failure: whether one of its tokens is a
    /// marker.
    pub fn classify(&self, line: &str) -> (r: bool)
        ensures
            r == signals_failure(line@, self.vocabulary()),
    {
        self.find_marker(line).is_some()
    }
}

/// Whether `line` signals a failure by the fixed vocabulary.
pub fn classify(line: &str) -> (r: bool)
    ensures
        r == signals_failure(line@, standard_markers()),
{
    Classifier::standard().classify(line)
}

} // verus!
