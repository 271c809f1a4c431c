//! Splitting and joining of character sequences, and the ASCII case folding
//! that command words go through.
//!
//! The contracts speak of `Seq<char>`, the view of `str` and `String`.
//! `split` and `join` are inverse to each other on lists of at least one
//! piece in which no piece holds the separator; the lemmas below say so.

use vstd::prelude::*;

verus! {

/// What `String::push` does to the string: the character is appended at the
/// end, as the standard library documents. Nothing is verified about it.
pub assume_specification[ String::push ](s: &mut String, ch: char)
    ensures
        final(s)@ == old(s)@.push(ch),
;

/// The pieces of `s` between occurrences of `sep`, in order. Every
/// occurrence separates: `n` occurrences give `n + 1` pieces, some of them
/// empty where two separators touch or one stands at an end.
pub open spec fn split(s: Seq<char>, sep: char) -> Seq<Seq<char>>
    decreases s.len(),
{
    if s.len() == 0 {
        seq![Seq::<char>::empty()]
    } else {
        let before = split(s.drop_last(), sep);
        if s.last() == sep {
            before.push(Seq::<char>::empty())
        } else {
            before.drop_last().push(before.last().push(s.last()))
        }
    }
}

/// The pieces with `sep` between each two neighbours.
pub open spec fn join(pieces: Seq<Seq<char>>, sep: char) -> Seq<char>
    decreases pieces.len(),
{
    if pieces.len() == 0 {
        Seq::<char>::empty()
    } else if pieces.len() == 1 {
        pieces[0]
    } else {
        join(pieces.drop_last(), sep).push(sep) + pieces.last()
    }
}

/// No piece holds the separator.
pub open spec fn free_of(pieces: Seq<Seq<char>>, sep: char) -> bool {
    forall|i: int, j: int|
        0 <= i < pieces.len() && 0 <= j < pieces[i].len() ==> #[trigger] pieces[i][j] != sep
}

/// The views of a list of strings.
pub open spec fn texts(strings: Seq<String>) -> Seq<Seq<char>> {
    strings.map_values(|s: String| s@)
}

/// The upper-case form of an ASCII lower-case letter; every other character
/// is left as it is.
pub open spec fn upper(c: char) -> char {
    if 'a' <= c && c <= 'z' {
        ((c as u8) - 32) as char
    } else {
        c
    }
}

/// The sequence with every character folded by `upper`.
pub open spec fn upper_text(s: Seq<char>) -> Seq<char> {
    s.map_values(|c: char| upper(c))
}

/// Splitting always yields at least one piece.
pub proof fn lemma_split_nonempty(s: Seq<char>, sep: char)
    ensures
        split(s, sep).len() >= 1,
    decreases s.len(),
{
    if s.len() > 0 {
        lemma_split_nonempty(s.drop_last(), sep);
    }
}

/// The pieces that splitting yields hold no separator.
pub proof fn lemma_split_free_of(s: Seq<char>, sep: char)
    ensures
        free_of(split(s, sep), sep),
    decreases s.len(),
{
    if s.len() > 0 {
        lemma_split_nonempty(s.drop_last(), sep);
        lemma_split_free_of(s.drop_last(), sep);
    }
}

/// Joining the pieces of a sequence gives the sequence back.
pub proof fn lemma_join_split(s: Seq<char>, sep: char)
    ensures
        join(split(s, sep), sep) == s,
    decreases s.len(),
{
    if s.len() > 0 {
        let front = s.drop_last();
        let before = split(front, sep);
        lemma_split_nonempty(front, sep);
        lemma_join_split(front, sep);
        if s.last() == sep {
            let after = before.push(Seq::<char>::empty());
            assert(after.drop_last() == before);
            assert(join(after, sep) == join(before, sep).push(sep) + Seq::<char>::empty());
            assert(join(after, sep) == s);
        } else {
            let grown = before.last().push(s.last());
            let after = before.drop_last().push(grown);
            assert(after.drop_last() == before.drop_last());
            assert(front.push(s.last()) == s);
            if before.len() == 1 {
                assert(after == seq![grown]);
                assert(join(after, sep) == grown);
            } else {
                assert(after.last() == grown);
                assert(join(after, sep) == join(before.drop_last(), sep).push(sep) + grown);
                assert(join(before.drop_last(), sep).push(sep) + grown == (join(
                    before.drop_last(),
                    sep,
                ).push(sep) + before.last()).push(s.last()));
            }
        }
    }
}

/// A sequence without separator is its own single piece.
proof fn lemma_split_single(piece: Seq<char>, sep: char)
    requires
        forall|j: int| 0 <= j < piece.len() ==> piece[j] != sep,
    ensures
        split(piece, sep) == seq![piece],
    decreases piece.len(),
{
    if piece.len() == 0 {
        assert(piece == Seq::<char>::empty());
    } else {
        lemma_split_single(piece.drop_last(), sep);
        let before = split(piece.drop_last(), sep);
        assert(before == seq![piece.drop_last()]);
        assert(before.last().push(piece.last()) == piece);
        assert(before.drop_last().push(piece) == seq![piece]);
    }
}

/// Appending a separator and a piece without separator adds that piece.
proof fn lemma_split_append(head: Seq<char>, piece: Seq<char>, sep: char)
    requires
        forall|j: int| 0 <= j < piece.len() ==> piece[j] != sep,
    ensures
        split(head.push(sep) + piece, sep) == split(head, sep).push(piece),
    decreases piece.len(),
{
    let whole = head.push(sep) + piece;
    if piece.len() == 0 {
        assert(whole == head.push(sep));
        assert(whole.drop_last() == head);
        assert(piece == Seq::<char>::empty());
    } else {
        let shorter = piece.drop_last();
        lemma_split_append(head, shorter, sep);
        assert(whole.drop_last() == head.push(sep) + shorter);
        assert(whole.last() == piece.last());
        let before = split(whole.drop_last(), sep);
        assert(before == split(head, sep).push(shorter));
        assert(before.drop_last() == split(head, sep));
        assert(before.last() == shorter);
        assert(shorter.push(piece.last()) == piece);
        assert(split(whole, sep) == before.drop_last().push(before.last().push(whole.last())));
    }
}

/// Splitting a joined list gives the list back, provided it has a piece and
/// no piece holds the separator.
pub proof fn lemma_split_join(pieces: Seq<Seq<char>>, sep: char)
    requires
        pieces.len() >= 1,
        free_of(pieces, sep),
    ensures
        split(join(pieces, sep), sep) == pieces,
    decreases pieces.len(),
{
    if pieces.len() == 1 {
        lemma_split_single(pieces[0], sep);
        assert(seq![pieces[0]] == pieces);
    } else {
        let front = pieces.drop_last();
        assert(free_of(front, sep)) by {
            assert forall|i: int, j: int|
                0 <= i < front.len() && 0 <= j < front[i].len() implies #[trigger] front[i][j]
                != sep by {
                assert(front[i][j] == pieces[i][j]);
            }
        }
        lemma_split_join(front, sep);
        assert forall|j: int| 0 <= j < pieces.last().len() implies pieces.last()[j] != sep by {
            assert(pieces[pieces.len() - 1][j] != sep);
        }
        lemma_split_append(join(front, sep), pieces.last(), sep);
        assert(front.push(pieces.last()) == pieces);
    }
}

/// The characters of `s`, in order.
pub fn chars_of(s: &str) -> (out: Vec<char>)
    ensures
        out@ == s@,
{
    let mut out: Vec<char> = Vec::new();
    for c in it: s.chars()
        invariant
            it.seq() == s@,
            out@ == it.seq().take(it.index()),
    {
        out.push(c);
    }
    out
}

/// Folds one character to upper case.
pub fn to_upper(c: char) -> (r: char)
    ensures
        r == upper(c),
{
    if 'a' <= c && c <= 'z' {
        ((c as u8) - 32u8) as char
    } else {
        c
    }
}

/// The characters of `s`, each folded to upper case.
pub fn upper_chars(s: &str) -> (out: Vec<char>)
    ensures
        out@ == upper_text(s@),
{
    let mut out: Vec<char> = Vec::new();
    for c in it: s.chars()
        invariant
            it.seq() == s@,
            out@ == upper_text(it.seq().take(it.index())),
    {
        out.push(to_upper(c));
        assert(it.seq().take(it.index() + 1).drop_last() == it.seq().take(it.index()));
    }
    out
}

/// Whether `chars` spells exactly `word`.
pub fn spells(chars: &Vec<char>, word: &str) -> (r: bool)
    ensures
        r == (chars@ == word@),
{
    let mut matching = true;
    let mut n: usize = 0;
    for c in it: word.chars()
        invariant
            it.seq() == word@,
            n == it.index() || !matching,
            matching ==> n <= chars.len() && chars@.take(n as int) == word@.take(n as int),
            !matching ==> chars@ != word@,
    {
        if matching {
            if n < chars.len() && chars[n] == c {
                assert(chars@.take(n + 1) == chars@.take(n as int).push(chars@[n as int]));
                assert(word@.take(n + 1) == word@.take(n as int).push(word@[n as int]));
                n = n + 1;
            } else {
                matching = false;
            }
        }
    }
    proof {
        if matching {
            assert(word@.take(n as int) == word@);
            if n == chars.len() {
                assert(chars@.take(n as int) == chars@);
            }
        }
    }
    matching && n == chars.len()
}

/// Splits the characters at every `sep`.
pub fn split_chars(chars: &Vec<char>, sep: char) -> (tokens: Vec<String>)
    ensures
        texts(tokens@) == split(chars@, sep),
{
    let mut tokens: Vec<String> = Vec::new();
    let mut current = String::new();
    let mut i: usize = 0;
    while i < chars.len()
        invariant
            i <= chars.len(),
            texts(tokens@).push(current@) == split(chars@.take(i as int), sep),
        decreases chars.len() - i,
    {
        let c = chars[i];
        let ghost before = texts(tokens@).push(current@);
        proof {
            assert(chars@.take(i + 1).drop_last() == chars@.take(i as int));
            assert(before.drop_last() == texts(tokens@));
        }
        if c == sep {
            tokens.push(current);
            current = String::new();
            assert(texts(tokens@) == before);
        } else {
            current.push(c);
        }
        i = i + 1;
    }
    assert(chars@.take(i as int) == chars@);
    tokens.push(current);
    tokens
}

} // verus!
