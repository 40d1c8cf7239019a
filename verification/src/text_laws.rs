//! What holds of lines, fields and decimal numbers.

use crate::text::{
    all_digits, decimal, digit_char, digit_value, digits_value, first_index_of, is_digit,
    lemma_first_index_of, lemma_first_index_of_bounds, lines, parse_u32_spec, split,
    unsigned_part, without_cr,
};
use vstd::prelude::*;

verus! {

/// A text is split in at least one piece.
pub proof fn lemma_split_nonempty(s: Seq<char>, sep: char)
    ensures
        split(s, sep).len() >= 1,
{
}

/// A text without the separator is one piece.
pub proof fn lemma_split_one(piece: Seq<char>, sep: char)
    requires
        !piece.contains(sep),
    ensures
        split(piece, sep) == seq![piece],
{
    lemma_first_index_of(piece, sep, piece.len() as int);
}

/// A piece without the separator, the separator and a rest are split into
/// that piece and the pieces of the rest.
pub proof fn lemma_split_first(piece: Seq<char>, rest: Seq<char>, sep: char)
    requires
        !piece.contains(sep),
    ensures
        split(piece + seq![sep] + rest, sep) == seq![piece] + split(rest, sep),
{
    let whole = piece + seq![sep] + rest;
    lemma_first_index_of(whole, sep, piece.len() as int);
    assert(whole.take(piece.len() as int) =~= piece);
    assert(whole.skip(piece.len() as int + 1) =~= rest);
}

/// A line without a line feed, a line feed and a rest are that line, less the
/// carriage return at its end, and the lines of the rest.
pub proof fn lemma_lines_first(line: Seq<char>, rest: Seq<char>)
    requires
        !line.contains('\n'),
    ensures
        lines(line + seq!['\n'] + rest) == seq![without_cr(line)] + lines(rest),
{
    let whole = line + seq!['\n'] + rest;
    lemma_first_index_of(whole, '\n', line.len() as int);
    assert(whole.take(line.len() as int) =~= line);
    assert(whole.skip(line.len() as int + 1) =~= rest);
}

/// No piece of a split text holds the separator, and none holds a character
/// that the text does not hold.
pub proof fn lemma_split_pieces(s: Seq<char>, sep: char, c: char)
    requires
        c == sep || !s.contains(c),
    ensures
        forall|i: int| 0 <= i < split(s, sep).len() ==> !(#[trigger] split(s, sep)[i]).contains(c),
    decreases s.len(),
{
    let at = first_index_of(s, sep);
    lemma_first_index_of_bounds(s, sep);
    let piece = s.take(at);
    assert(!piece.contains(c)) by {
        assert forall|j: int| 0 <= j < piece.len() implies piece[j] != c by {
            assert(piece[j] == s[j]);
        }
    }
    if at < s.len() {
        let rest = s.skip(at + 1);
        assert(c == sep || !rest.contains(c)) by {
            if c != sep {
                assert forall|j: int| 0 <= j < rest.len() implies rest[j] != c by {
                    assert(rest[j] == s[j + at + 1]);
                }
            }
        }
        lemma_split_pieces(rest, sep, c);
        assert forall|i: int| 0 <= i < split(s, sep).len() implies !(#[trigger] split(
            s,
            sep,
        )[i]).contains(c) by {
            if i > 0 {
                assert(split(s, sep)[i] == split(rest, sep)[i - 1]);
            }
        }
    } else {
        assert(piece =~= s);
    }
}

/// No line of a text holds a line feed.
pub proof fn lemma_lines_have_no_feed(s: Seq<char>)
    ensures
        forall|i: int| 0 <= i < lines(s).len() ==> !(#[trigger] lines(s)[i]).contains('\n'),
    decreases s.len(),
{
    if s.len() > 0 {
        let at = first_index_of(s, '\n');
        lemma_first_index_of_bounds(s, '\n');
        let raw = s.take(at);
        let line = without_cr(raw);
        assert(!line.contains('\n')) by {
            assert forall|j: int| 0 <= j < line.len() implies line[j] != '\n' by {
                assert(line[j] == s[j]);
            }
        }
        if at < s.len() {
            let rest = s.skip(at + 1);
            lemma_lines_have_no_feed(rest);
            assert forall|i: int| 0 <= i < lines(s).len() implies !(#[trigger] lines(
                s,
            )[i]).contains('\n') by {
                if i > 0 {
                    assert(lines(s)[i] == lines(rest)[i - 1]);
                }
            }
        } else {
            assert(raw =~= s);
            assert(!s.contains('\n'));
        }
    }
}

/// Whether a text is made of whole lines: it is empty or ends in a line feed.
pub open spec fn ends_lines(s: Seq<char>) -> bool {
    s.len() == 0 || s.last() == '\n'
}

/// The lines of a text that is made of whole lines, followed by another text,
/// are the lines of the one and then the lines of the other.
pub proof fn lemma_lines_concat(a: Seq<char>, b: Seq<char>)
    requires
        ends_lines(a),
    ensures
        lines(a + b) == lines(a) + lines(b),
    decreases a.len(),
{
    if a.len() == 0 {
        assert(a + b =~= b);
        assert(lines(a) + lines(b) =~= lines(b));
    } else {
        let at = first_index_of(a, '\n');
        lemma_first_index_of_bounds(a, '\n');
        assert(at < a.len()) by {
            if at >= a.len() {
                assert(a[a.len() - 1] != '\n');
            }
        }
        let line = a.take(at);
        let rest = a.skip(at + 1);
        assert(!line.contains('\n'));
        assert(a =~= line + seq!['\n'] + rest);
        assert(a + b =~= line + seq!['\n'] + (rest + b));
        lemma_lines_first(line, rest);
        lemma_lines_first(line, rest + b);
        assert(ends_lines(rest)) by {
            if rest.len() > 0 {
                assert(rest.last() == a.last());
            }
        }
        lemma_lines_concat(rest, b);
        assert(seq![without_cr(line)] + (lines(rest) + lines(b)) =~= (seq![without_cr(line)]
            + lines(rest)) + lines(b));
    }
}

/// The decimal text of a number is made of digits, at least one, and denotes
/// that number.
pub proof fn lemma_decimal(n: nat)
    ensures
        decimal(n).len() >= 1,
        all_digits(decimal(n)),
        digits_value(decimal(n)) == n,
    decreases n,
{
    let last = digit_char(n % 10);
    assert(is_digit(last) && digit_value(last) == n % 10);
    if n < 10 {
        assert(decimal(n).drop_last() =~= Seq::empty());
        assert(digits_value(decimal(n).drop_last()) == 0);
    } else {
        lemma_decimal(n / 10);
        assert(decimal(n).drop_last() =~= decimal(n / 10));
    }
}

/// Reading the decimal text of a 32-bit number gives the number back.
pub proof fn lemma_parse_decimal(n: nat)
    requires
        n <= u32::MAX,
    ensures
        parse_u32_spec(decimal(n)) == Some(n as u32),
{
    lemma_decimal(n);
    assert(is_digit(decimal(n)[0]));
    assert(unsigned_part(decimal(n)) == decimal(n));
}

} // verus!
