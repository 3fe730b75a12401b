//! Text handled as sequences of characters: conversion from and to strings,
//! removal of tokens, splitting into lines and decimal rendering.

use vstd::prelude::*;

verus! {

/// The characters of `text`, in order.
pub fn chars_of(text: &str) -> (chars: Vec<char>)
    ensures
        chars@ == text@,
{
    let mut chars: Vec<char> = Vec::new();
    for c in it: text.chars()
        invariant
            it.seq() == text@,
            chars@ == it.seq().take(it.index() as int),
    {
        chars.push(c);
    }
    chars
}

/// Trusted: `String::push` of std. The string afterwards is the string before
/// with the character appended.
pub assume_specification[ String::push ](text: &mut String, ch: char)
    ensures
        final(text)@ == old(text)@.push(ch),
;

/// The string that holds exactly the given characters, in the given order.
pub fn string_of(chars: &Vec<char>) -> (text: String)
    ensures
        text@ == chars@,
{
    let mut text = String::new();
    let mut i: usize = 0;
    while i < chars.len()
        invariant
            i <= chars.len(),
            text@ == chars@.take(i as int),
        decreases chars.len() - i,
    {
        text.push(chars[i]);
        i += 1;
        assert(text@ =~= chars@.take(i as int));
    }
    assert(chars@.take(chars@.len() as int) =~= chars@);
    text
}

/// `text` with every occurrence of `token` taken out, scanning from the left
/// and never looking again at characters that were part of an occurrence.
/// An empty token removes nothing.
pub open spec fn without(text: Seq<char>, token: Seq<char>) -> Seq<char>
    decreases text.len(),
{
    if token.len() == 0 || text.len() < token.len() {
        text
    } else if text.take(token.len() as int) == token {
        without(text.skip(token.len() as int), token)
    } else {
        seq![text[0]] + without(text.skip(1), token)
    }
}

/// Whether `token` stands in `text` at position `at`.
pub open spec fn occurs_at(text: Seq<char>, at: int, token: Seq<char>) -> bool {
    &&& 0 <= at
    &&& at + token.len() <= text.len()
    &&& text.subrange(at, at + token.len()) == token
}

/// Decides whether `token` stands in `text` at position `at`.
pub fn is_at(text: &Vec<char>, at: usize, token: &Vec<char>) -> (found: bool)
    ensures
        found == occurs_at(text@, at as int, token@),
{
    if at > text.len() || token.len() > text.len() - at {
        return false;
    }
    let mut k: usize = 0;
    while k < token.len()
        invariant
            at + token.len() <= text.len(),
            k <= token.len(),
            forall|j: int| 0 <= j < k ==> text@[at + j] == token@[j],
        decreases token.len() - k,
    {
        if text[at + k] != token[k] {
            proof {
                let piece = text@.subrange(at as int, at + token.len());
                assert(piece[k as int] == text@[at + k]);
            }
            return false;
        }
        k += 1;
    }
    assert(text@.subrange(at as int, at + token.len()) =~= token@);
    true
}

/// A copy of `text` with every occurrence of `token` taken out.
pub fn remove_all(text: &Vec<char>, token: &Vec<char>) -> (rest: Vec<char>)
    ensures
        rest@ == without(text@, token@),
{
    let mut rest: Vec<char> = Vec::new();
    let mut i: usize = 0;
    proof {
        assert(text@.skip(0) =~= text@);
        assert(rest@ + without(text@, token@) =~= without(text@, token@));
    }
    while i < text.len()
        invariant
            i <= text.len(),
            rest@ + without(text@.skip(i as int), token@) == without(text@, token@),
        decreases text.len() - i,
    {
        let ghost tail = text@.skip(i as int);
        if token.len() > 0 && is_at(text, i, token) {
            proof {
                assert(tail.take(token.len() as int) =~= text@.subrange(
                    i as int,
                    i + token.len(),
                ));
                assert(tail.skip(token.len() as int) =~= text@.skip(i + token.len()));
            }
            i += token.len();
        } else {
            proof {
                assert(tail.skip(1) =~= text@.skip(i + 1));
                if token.len() > 0 && tail.len() >= token.len() {
                    assert(tail.take(token.len() as int) =~= text@.subrange(
                        i as int,
                        i + token.len(),
                    ));
                    assert(without(tail, token@) == seq![tail[0]] + without(tail.skip(1), token@));
                    assert(rest@.push(text@[i as int]) + without(tail.skip(1), token@) =~= rest@
                        + without(tail, token@));
                } else {
                    lemma_without_short(tail, token@);
                    lemma_without_short(tail.skip(1), token@);
                    assert(rest@.push(text@[i as int]) + tail.skip(1) =~= rest@ + tail);
                }
            }
            rest.push(text[i]);
            i += 1;
        }
    }
    proof {
        assert(text@.skip(i as int) =~= Seq::<char>::empty());
        assert(rest@ + Seq::<char>::empty() =~= rest@);
    }
    rest
}

/// A text shorter than the token, or an empty token, loses nothing.
pub proof fn lemma_without_short(text: Seq<char>, token: Seq<char>)
    requires
        token.len() == 0 || text.len() < token.len(),
    ensures
        without(text, token) == text,
{
}

/// How many characters stand before the first line feed of `text`; the whole
/// length where it holds none.
pub open spec fn first_newline(text: Seq<char>) -> nat
    decreases text.len(),
{
    if text.len() == 0 || text[0] == '\n' {
        0
    } else {
        1 + first_newline(text.skip(1))
    }
}

/// A line as it stood before its line feed, without the carriage return that
/// closed it, if there was one.
pub open spec fn strip_cr(line: Seq<char>) -> Seq<char> {
    if line.len() > 0 && line.last() == '\r' {
        line.drop_last()
    } else {
        line
    }
}

/// The lines of `text`. A line ends at a line feed, or at a carriage return
/// directly followed by one; neither belongs to the line. The last line needs
/// no line ending, and a text that ends in one has no empty line after it.
pub open spec fn lines_of(text: Seq<char>) -> Seq<Seq<char>>
    decreases text.len(),
{
    if text.len() == 0 {
        Seq::empty()
    } else {
        let k = first_newline(text);
        if k >= text.len() {
            seq![text]
        } else {
            seq![strip_cr(text.take(k as int))] + lines_of(text.skip(k as int + 1))
        }
    }
}

/// The first line feed is where a line feed stands with none before it.
pub proof fn lemma_first_newline(text: Seq<char>, k: int)
    requires
        0 <= k <= text.len(),
        forall|j: int| 0 <= j < k ==> text[j] != '\n',
        k == text.len() || text[k] == '\n',
    ensures
        first_newline(text) == k,
    decreases k,
{
    if k > 0 {
        let tail = text.skip(1);
        assert forall|j: int| 0 <= j < k - 1 implies tail[j] != '\n' by {
            assert(tail[j] == text[j + 1]);
        }
        lemma_first_newline(tail, k - 1);
    }
}

/// The views of a sequence of character vectors.
pub open spec fn texts(lines: Seq<Vec<char>>) -> Seq<Seq<char>> {
    lines.map_values(|line: Vec<char>| line@)
}

/// Splits `text` into its lines.
pub fn split_lines(text: &Vec<char>) -> (lines: Vec<Vec<char>>)
    ensures
        texts(lines@) == lines_of(text@),
{
    let mut lines: Vec<Vec<char>> = Vec::new();
    let mut start: usize = 0;
    proof {
        assert(text@.skip(0) =~= text@);
        assert(texts(lines@) + lines_of(text@) =~= lines_of(text@));
    }
    while start < text.len()
        invariant
            start <= text.len(),
            texts(lines@) + lines_of(text@.skip(start as int)) == lines_of(text@),
        decreases text.len() - start,
    {
        let ghost tail = text@.skip(start as int);
        let ghost before = lines@;
        let mut line: Vec<char> = Vec::new();
        let mut end: usize = start;
        while end < text.len() && text[end] != '\n'
            invariant
                start <= end <= text.len(),
                line@ == text@.subrange(start as int, end as int),
                forall|j: int| start <= j < end ==> text@[j] != '\n',
            decreases text.len() - end,
        {
            line.push(text[end]);
            end += 1;
            assert(line@ =~= text@.subrange(start as int, end as int));
        }
        proof {
            assert forall|j: int| 0 <= j < end - start implies tail[j] != '\n' by {
                assert(tail[j] == text@[start + j]);
            }
            lemma_first_newline(tail, end - start);
            assert(tail.take(end - start) =~= text@.subrange(start as int, end as int));
        }
        if end < text.len() {
            let n = line.len();
            if n > 0 && line[n - 1] == '\r' {
                line.pop();
                assert(line@ =~= strip_cr(tail.take(end - start)));
            }
            proof {
                assert(tail.skip(end - start + 1) =~= text@.skip(end + 1));
            }
            lines.push(line);
            start = end + 1;
        } else {
            proof {
                assert(tail.take(end - start) =~= tail);
                assert(text@.skip(end as int) =~= Seq::<char>::empty());
                assert(lines_of(tail) =~= seq![tail] + lines_of(text@.skip(end as int)));
            }
            lines.push(line);
            start = end;
        }
        proof {
            let added = lines@[lines@.len() - 1];
            assert(texts(lines@) =~= texts(before) + seq![added@]);
            assert(lines_of(tail) =~= seq![added@] + lines_of(text@.skip(start as int)));
            assert(texts(lines@) + lines_of(text@.skip(start as int)) =~= texts(before)
                + lines_of(tail));
        }
    }
    proof {
        assert(text@.skip(start as int) =~= Seq::<char>::empty());
        assert(texts(lines@) + Seq::<Seq<char>>::empty() =~= texts(lines@));
    }
    lines
}

/// The character that writes the digit `d`.
pub open spec fn digit_char(d: nat) -> char {
    if d == 0 {
        '0'
    } else if d == 1 {
        '1'
    } else if d == 2 {
        '2'
    } else if d == 3 {
        '3'
    } else if d == 4 {
        '4'
    } else if d == 5 {
        '5'
    } else if d == 6 {
        '6'
    } else if d == 7 {
        '7'
    } else if d == 8 {
        '8'
    } else {
        '9'
    }
}

/// `n` written in base ten, without sign or leading zeros.
pub open spec fn decimal(n: nat) -> Seq<char>
    decreases n,
{
    if n < 10 {
        seq![digit_char(n)]
    } else {
        decimal(n / 10).push(digit_char(n % 10))
    }
}

fn digit(d: u64) -> (c: char)
    requires
        d < 10,
    ensures
        c == digit_char(d as nat),
{
    if d == 0 {
        '0'
    } else if d == 1 {
        '1'
    } else if d == 2 {
        '2'
    } else if d == 3 {
        '3'
    } else if d == 4 {
        '4'
    } else if d == 5 {
        '5'
    } else if d == 6 {
        '6'
    } else if d == 7 {
        '7'
    } else if d == 8 {
        '8'
    } else {
        '9'
    }
}

/// Appends `n`, written in base ten, to `out`.
pub fn push_decimal(out: &mut Vec<char>, n: u64)
    ensures
        final(out)@ == old(out)@ + decimal(n as nat),
    decreases n,
{
    if n >= 10 {
        push_decimal(out, n / 10);
    }
    out.push(digit(n % 10));
    assert(out@ =~= old(out)@ + decimal(n as nat));
}

} // verus!
