//! Text as sequences of characters: the splitting of a line into tokens and
//! of a search path into directories, and the specifications of the string
//! operations of the standard library that the crate builds on.

use vstd::prelude::*;

verus! {

/// Whether `c` has the Unicode property `White_Space`, as
/// `char::is_whitespace` reports it.
pub uninterp spec fn is_whitespace(c: char) -> bool;

/// `char::is_whitespace` tells whether the character has the Unicode property
/// `White_Space`; the answer depends on the character alone.
pub assume_specification[ char::is_whitespace ](c: char) -> (b: bool)
    ensures
        b == is_whitespace(c),
;

/// `String::push` appends the given character to the end of the string and
/// leaves what was already there untouched.
pub assume_specification[ String::push ](s: &mut String, ch: char)
    ensures
        final(s)@ == old(s)@.push(ch),
;

/// The tokens of `line`: its maximal runs of characters that are not white
/// space, from left to right.
pub open spec fn tokens(line: Seq<char>) -> Seq<Seq<char>>
    decreases line.len(),
{
    if line.len() == 0 {
        Seq::empty()
    } else {
        let before = tokens(line.drop_last());
        let c = line.last();
        if is_whitespace(c) {
            before
        } else if line.len() >= 2 && !is_whitespace(line[line.len() - 2]) {
            before.drop_last().push(before.last().push(c))
        } else {
            before.push(seq![c])
        }
    }
}

/// The pieces of `text` between occurrences of `separator`, from left to
/// right. There is one piece more than there are separators, and a piece may
/// be empty.
pub open spec fn pieces(text: Seq<char>, separator: char) -> Seq<Seq<char>>
    decreases text.len(),
{
    if text.len() == 0 {
        seq![Seq::empty()]
    } else {
        let before = pieces(text.drop_last(), separator);
        if text.last() == separator {
            before.push(Seq::empty())
        } else {
            before.drop_last().push(before.last().push(text.last()))
        }
    }
}

/// The texts of a sequence of strings.
pub open spec fn texts(strings: Seq<String>) -> Seq<Seq<char>> {
    strings.map_values(|s: String| s@)
}

/// A line that ends in a character that is not white space has at least one
/// token, and no token is empty or holds white space.
pub proof fn lemma_tokens(line: Seq<char>)
    ensures
        line.len() > 0 && !is_whitespace(line.last()) ==> tokens(line).len() > 0,
        forall|i: int|
            0 <= i < tokens(line).len() ==> (#[trigger] tokens(line)[i]).len() > 0,
        forall|i: int, j: int|
            0 <= i < tokens(line).len() && 0 <= j < tokens(line)[i].len() ==> !is_whitespace(
                #[trigger] tokens(line)[i][j],
            ),
    decreases line.len(),
{
    if line.len() > 0 {
        let rest = line.drop_last();
        let before = tokens(rest);
        let c = line.last();
        lemma_tokens(rest);
        if !is_whitespace(c) && line.len() >= 2 && !is_whitespace(line[line.len() - 2]) {
            assert(rest.last() == line[line.len() - 2]);
            let grown = before.last().push(c);
            assert(tokens(line) == before.drop_last().push(grown));
            assert forall|i: int| 0 <= i < tokens(line).len() implies (#[trigger] tokens(
                line,
            )[i]).len() > 0 by {
                if i < before.len() - 1 {
                    assert(tokens(line)[i] == before[i]);
                }
            }
            assert forall|i: int, j: int|
                0 <= i < tokens(line).len() && 0 <= j < tokens(line)[i].len() implies !is_whitespace(
                #[trigger] tokens(line)[i][j],
            ) by {
                if i < before.len() - 1 {
                    assert(tokens(line)[i] == before[i]);
                    assert(!is_whitespace(before[i][j]));
                } else if j < before.last().len() {
                    assert(grown[j] == before[before.len() - 1][j]);
                    assert(!is_whitespace(before[before.len() - 1][j]));
                }
            }
        } else if !is_whitespace(c) {
            assert(tokens(line) == before.push(seq![c]));
            assert forall|i: int, j: int|
                0 <= i < tokens(line).len() && 0 <= j < tokens(line)[i].len() implies !is_whitespace(
                #[trigger] tokens(line)[i][j],
            ) by {
                if i < before.len() {
                    assert(tokens(line)[i] == before[i]);
                    assert(!is_whitespace(before[i][j]));
                }
            }
        }
    }
}

/// There is always a piece, and no piece holds the separator.
pub proof fn lemma_pieces(text: Seq<char>, separator: char)
    ensures
        pieces(text, separator).len() > 0,
        forall|i: int, j: int|
            0 <= i < pieces(text, separator).len() && 0 <= j < pieces(text, separator)[i].len()
                ==> #[trigger] pieces(text, separator)[i][j] != separator,
    decreases text.len(),
{
    if text.len() > 0 {
        lemma_pieces(text.drop_last(), separator);
    }
}

/// The same character, known to be a scalar value.
fn scalar(c: char) -> (r: char)
    ensures
        r == c,
        c as u32 as char == c,
{
    c
}

/// Whether two texts are the same.
pub fn same_text(a: &str, b: &str) -> (same: bool)
    ensures
        same == (a@ == b@),
{
    let x = a.to_owned();
    let y = b.to_owned();
    x == y
}

/// Whether `text` holds `wanted`.
pub fn has_char(text: &str, wanted: char) -> (found: bool)
    ensures
        found == text@.contains(wanted),
{
    let chars = text.chars();
    for c in it: chars
        invariant
            it.seq() == text@,
            forall|k: int| 0 <= k < it.index() ==> text@[k] != wanted,
    {
        if c == wanted {
            assert(text@[it.index() as int] == wanted);
            return true;
        }
    }
    false
}

/// Splits `line` at white space.
pub fn split_whitespace(line: &str) -> (found: Vec<String>)
    ensures
        texts(found@) == tokens(line@),
{
    let mut found: Vec<String> = Vec::new();
    let mut current = String::new();
    let mut in_token = false;
    let chars = line.chars();
    for c in it: chars
        invariant
            it.seq() == line@,
            in_token <==> it.index() > 0 && !is_whitespace(line@[it.index() - 1]),
            in_token ==> tokens(line@.take(it.index())) == texts(found@).push(current@),
            !in_token ==> tokens(line@.take(it.index())) == texts(found@) && current@.len() == 0,
    {
        let c = scalar(c);
        proof {
            let i = it.index() as int;
            assert(line@.take(i + 1).drop_last() =~= line@.take(i));
            assert(line@.take(i + 1).last() == c);
        }
        let ghost listed = texts(found@);
        if c.is_whitespace() {
            if in_token {
                found.push(current);
                current = String::new();
                in_token = false;
                assert(texts(found@) =~= listed.push(found@.last()@));
            }
        } else {
            let ghost before = current@;
            current.push(c);
            if in_token {
                assert(listed.push(before).drop_last() =~= listed);
            } else {
                assert(current@ =~= seq![c]);
            }
            in_token = true;
        }
    }
    proof {
        assert(line@.take(line@.len() as int) =~= line@);
    }
    if in_token {
        let ghost listed = texts(found@);
        found.push(current);
        assert(texts(found@) =~= listed.push(found@.last()@));
    }
    found
}

/// Splits `text` at each `separator`.
pub fn split_at(text: &str, separator: char) -> (found: Vec<String>)
    ensures
        texts(found@) == pieces(text@, separator),
{
    let mut found: Vec<String> = Vec::new();
    let mut current = String::new();
    let chars = text.chars();
    for c in it: chars
        invariant
            it.seq() == text@,
            pieces(text@.take(it.index()), separator) == texts(found@).push(current@),
    {
        let c = scalar(c);
        proof {
            let i = it.index() as int;
            assert(text@.take(i + 1).drop_last() =~= text@.take(i));
            assert(text@.take(i + 1).last() == c);
        }
        let ghost listed = texts(found@);
        let ghost before = current@;
        if c == separator {
            found.push(current);
            current = String::new();
            assert(texts(found@) =~= listed.push(before));
        } else {
            current.push(c);
            assert(listed.push(before).drop_last() =~= listed);
        }
    }
    proof {
        assert(text@.take(text@.len() as int) =~= text@);
    }
    let ghost listed = texts(found@);
    found.push(current);
    assert(texts(found@) =~= listed.push(found@.last()@));
    found
}

} // verus!
