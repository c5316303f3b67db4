//! Encoder options, given as a comma-separated list of `key=value`.

use vstd::prelude::*;
use vstd::string::StrSliceExecFns;
use vstd::string::StringExecFns;

verus! {

/// The pieces of `s[start..]` between separators, where `s[start..i]` is known
/// to hold no separator. A separator at the very end leaves an empty last
/// piece.
pub open spec fn split_from(s: Seq<char>, sep: char, start: int, i: int) -> Seq<Seq<char>>
    decreases s.len() - i,
{
    if i >= s.len() {
        seq![s.subrange(start, s.len() as int)]
    } else if s[i] == sep {
        seq![s.subrange(start, i)] + split_from(s, sep, i + 1, i + 1)
    } else {
        split_from(s, sep, start, i + 1)
    }
}

/// The pieces of `s` between separators: one more than there are separators.
pub open spec fn split(s: Seq<char>, sep: char) -> Seq<Seq<char>> {
    split_from(s, sep, 0, 0)
}

/// The pieces without an empty last one.
pub open spec fn terminated(pieces: Seq<Seq<char>>) -> Seq<Seq<char>> {
    if pieces.len() > 0 && pieces.last().len() == 0 {
        pieces.drop_last()
    } else {
        pieces
    }
}

/// The tokens of an option string: its pieces between commas, where a comma
/// at the end ends the last token and begins no new one.
pub open spec fn tokens(s: Seq<char>) -> Seq<Seq<char>> {
    terminated(split(s, ','))
}

/// A token with exactly one `=`.
pub open spec fn is_pair(token: Seq<char>) -> bool {
    split(token, '=').len() == 2
}

/// Key and value of such a token: what stands before the `=` and after it.
pub open spec fn pair_of(token: Seq<char>) -> (Seq<char>, Seq<char>) {
    (split(token, '=')[0], split(token, '=')[1])
}

/// The option set that a string stands for. There is none where the string
/// holds no token or where any token is not a pair: a malformed string yields
/// no options at all, never a part of them.
pub open spec fn parse_opts_spec(s: Seq<char>) -> Option<Seq<(Seq<char>, Seq<char>)>> {
    let toks = tokens(s);
    if toks.len() > 0 && (forall|i: int| 0 <= i < toks.len() ==> is_pair(#[trigger] toks[i])) {
        Some(Seq::new(toks.len(), |i: int| pair_of(toks[i])))
    } else {
        None
    }
}

/// A string has at least one piece.
pub proof fn lemma_split_from_len(s: Seq<char>, sep: char, start: int, i: int)
    requires
        0 <= start <= i <= s.len(),
    ensures
        split_from(s, sep, start, i).len() >= 1,
    decreases s.len() - i,
{
    if i < s.len() {
        if s[i] == sep {
            lemma_split_from_len(s, sep, i + 1, i + 1);
        } else {
            lemma_split_from_len(s, sep, start, i + 1);
        }
    }
}

/// Cuts `s` at every `sep`.
pub fn split_str(s: &str, sep: char) -> (pieces: Vec<String>)
    ensures
        pieces.deep_view() == split(s@, sep),
        pieces.len() >= 1,
{
    let n = s.unicode_len();
    let mut pieces: Vec<String> = Vec::new();
    let mut start: usize = 0;
    let mut i: usize = 0;
    while i < n
        invariant
            start <= i <= n,
            n == s@.len(),
            split(s@, sep) == pieces.deep_view() + split_from(s@, sep, start as int, i as int),
        decreases n - i,
    {
        let c = s.get_char(i);
        if c == sep {
            let ghost before = pieces.deep_view();
            let piece = String::from_str(s.substring_char(start, i));
            pieces.push(piece);
            proof {
                let rest = split_from(s@, sep, i + 1, i + 1);
                assert(pieces.deep_view() =~= before.push(s@.subrange(start as int, i as int)));
                assert(before + (seq![s@.subrange(start as int, i as int)] + rest)
                    =~= before.push(s@.subrange(start as int, i as int)) + rest);
            }
            start = i + 1;
        }
        i = i + 1;
    }
    let ghost before = pieces.deep_view();
    let piece = String::from_str(s.substring_char(start, n));
    pieces.push(piece);
    proof {
        assert(pieces.deep_view() =~= before.push(s@.subrange(start as int, n as int)));
        assert(before + seq![s@.subrange(start as int, n as int)] =~= before.push(
            s@.subrange(start as int, n as int),
        ));
    }
    pieces
}

/// Reads an option string such as `preset=medium,crf=18`. The pairs come in
/// the order of the string. Returns nothing where the string holds no token,
/// or a token without exactly one `=`.
pub fn parse_opts(s: &str) -> (opts: Option<Vec<(String, String)>>)
    ensures
        match opts {
            Some(pairs) => parse_opts_spec(s@) == Some(pairs.deep_view()),
            None => parse_opts_spec(s@) is None,
        },
{
    let pieces = split_str(s, ',');
    let mut n: usize = pieces.len();
    if pieces[n - 1].as_str().unicode_len() == 0 {
        n = n - 1;
    }
    let ghost toks = tokens(s@);
    assert(toks =~= pieces.deep_view().take(n as int));
    if n == 0 {
        return None;
    }
    let mut pairs: Vec<(String, String)> = Vec::new();
    let mut i: usize = 0;
    while i < n
        invariant
            i <= n <= pieces.len(),
            toks == tokens(s@),
            toks.len() == n,
            forall|j: int| 0 <= j < n ==> toks[j] == #[trigger] pieces[j]@,
            pairs.len() == i,
            forall|j: int| 0 <= j < i ==> is_pair(#[trigger] toks[j]),
            forall|j: int| 0 <= j < i ==> (#[trigger] pairs[j]).deep_view() == pair_of(toks[j]),
        decreases n - i,
    {
        let mut kv = split_str(pieces[i].as_str(), '=');
        if kv.len() != 2 {
            assert(!is_pair(toks[i as int]));
            return None;
        }
        let ghost both = kv.deep_view();
        let value = kv.pop().unwrap();
        let key = kv.pop().unwrap();
        assert(key@ == both[0] && value@ == both[1]);
        pairs.push((key, value));
        i = i + 1;
    }
    assert(pairs.deep_view() =~= Seq::new(toks.len(), |i: int| pair_of(toks[i])));
    Some(pairs)
}

/// The pieces with `sep` between each two of them.
pub open spec fn join(pieces: Seq<Seq<char>>, sep: char) -> Seq<char>
    decreases pieces.len(),
{
    if pieces.len() == 0 {
        Seq::empty()
    } else if pieces.len() == 1 {
        pieces[0]
    } else {
        pieces[0] + seq![sep] + join(pieces.drop_first(), sep)
    }
}

/// How often `c` occurs in `s[from..]`.
pub open spec fn occurrences(s: Seq<char>, c: char, from: int) -> nat
    decreases s.len() - from,
{
    if from >= s.len() {
        0
    } else {
        occurrences(s, c, from + 1) + if s[from] == c {
            1nat
        } else {
            0nat
        }
    }
}

proof fn lemma_split_from(s: Seq<char>, sep: char, start: int, i: int)
    requires
        0 <= start <= i <= s.len(),
        forall|k: int| start <= k < i ==> s[k] != sep,
    ensures
        join(split_from(s, sep, start, i), sep) == s.subrange(start, s.len() as int),
        forall|j: int|
            0 <= j < split_from(s, sep, start, i).len() ==> !(#[trigger] split_from(
                s,
                sep,
                start,
                i,
            )[j]).contains(sep),
        split_from(s, sep, start, i).len() == occurrences(s, sep, i) + 1,
    decreases s.len() - i,
{
    let pieces = split_from(s, sep, start, i);
    if i >= s.len() {
        assert(!s.subrange(start, s.len() as int).contains(sep));
    } else if s[i] == sep {
        let rest = split_from(s, sep, i + 1, i + 1);
        lemma_split_from(s, sep, i + 1, i + 1);
        lemma_split_from_len(s, sep, i + 1, i + 1);
        assert(pieces.drop_first() =~= rest);
        assert(s.subrange(start, i) + seq![sep] + s.subrange(i + 1, s.len() as int)
            =~= s.subrange(start, s.len() as int));
        assert(!s.subrange(start, i).contains(sep));
        assert forall|j: int| 0 <= j < pieces.len() implies !(#[trigger] pieces[j]).contains(
            sep,
        ) by {
            if j > 0 {
                assert(pieces[j] == rest[j - 1]);
            }
        }
    } else {
        lemma_split_from(s, sep, start, i + 1);
    }
}

/// What the pieces of a string are: none of them holds the separator, with
/// the separator between them they are the string again, and they are one
/// more than the string has separators.
pub proof fn lemma_split_joins(s: Seq<char>, sep: char)
    ensures
        join(split(s, sep), sep) == s,
        forall|j: int| 0 <= j < split(s, sep).len() ==> !(#[trigger] split(s, sep)[j]).contains(sep),
        split(s, sep).len() == occurrences(s, sep, 0) + 1,
{
    lemma_split_from(s, sep, 0, 0);
    assert(s.subrange(0, s.len() as int) =~= s);
}

/// A token is a pair exactly when it holds one `=`, and then it is its key,
/// the `=` and its value.
pub proof fn lemma_pair_has_one_equals_sign(token: Seq<char>)
    ensures
        is_pair(token) <==> occurrences(token, '=', 0) == 1,
        is_pair(token) ==> token == pair_of(token).0 + seq!['='] + pair_of(token).1,
{
    lemma_split_joins(token, '=');
    let pieces = split(token, '=');
    if pieces.len() == 2 {
        assert(pieces.drop_first().len() == 1);
        assert(join(pieces.drop_first(), '=') == pieces[1]);
    }
}

/// An option string is read whole or not at all: where it is read, it has a
/// token, every token is a pair, and there is one option for each token, in
/// the order of the tokens.
pub proof fn lemma_parse_is_all_or_nothing(s: Seq<char>)
    ensures
        parse_opts_spec(s) is Some <==> tokens(s).len() > 0 && forall|i: int|
            0 <= i < tokens(s).len() ==> occurrences(#[trigger] tokens(s)[i], '=', 0) == 1,
        parse_opts_spec(s) is Some ==> parse_opts_spec(s)->Some_0.len() == tokens(s).len(),
{
    let toks = tokens(s);
    assert forall|i: int| 0 <= i < toks.len() implies (is_pair(#[trigger] toks[i])
        <==> occurrences(toks[i], '=', 0) == 1) by {
        lemma_pair_has_one_equals_sign(toks[i]);
    }
}

} // verus!
