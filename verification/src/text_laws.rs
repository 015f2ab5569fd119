//! What holds of trimming, splitting, numerals and the order of texts.

use crate::lines::lines_of;
use crate::text::{
    all_digits, is_blank, is_digit, is_white_space, lemma_numeral_round_trip,
    lemma_split_append_piece, lemma_split_not_empty, lemma_split_of_piece, numeral_of,
    numeral_value, signed_of, split_on, text_le, trim_end_of, trim_of, trim_start_of, unsigned_of,
};
use vstd::prelude::*;

verus! {

/// White space is the blank, the tab, the line ends, and what else Unicode counts as such.
pub proof fn law_white_space(c: char)
    ensures
        is_white_space(c) == ({
            ||| c == ' ' || c == '\t' || c == '\n' || c == '\r'
            ||| c as u32 == 0x0b || c as u32 == 0x0c || c as u32 == 0x85 || c as u32 == 0xa0
            ||| c as u32 == 0x1680 || c as u32 == 0x2028 || c as u32 == 0x2029
            ||| c as u32 == 0x202f || c as u32 == 0x205f || c as u32 == 0x3000
            ||| 0x2000 <= c as u32 && c as u32 <= 0x200a
        }),
{
}

pub open spec fn all_white(s: Seq<char>) -> bool {
    forall|i: int| 0 <= i < s.len() ==> is_white_space(#[trigger] s[i])
}

/// Whether `kept` is what stands between the white space at the two ends of `s`.
pub open spec fn is_trimmed(kept: Seq<char>, s: Seq<char>) -> bool {
    &&& exists|lead: Seq<char>, tail: Seq<char>|
        #![trigger lead + kept + tail]
        s == lead + kept + tail && all_white(lead) && all_white(tail)
    &&& kept.len() > 0 ==> !is_white_space(kept.first()) && !is_white_space(kept.last())
}

proof fn lemma_trim_start(s: Seq<char>) -> (lead: Seq<char>)
    ensures
        s == lead + trim_start_of(s),
        all_white(lead),
        trim_start_of(s).len() > 0 ==> !is_white_space(trim_start_of(s).first()),
    decreases s.len(),
{
    if s.len() > 0 && is_white_space(s.first()) {
        let rest = lemma_trim_start(s.drop_first());
        let lead = seq![s.first()] + rest;
        assert(s =~= seq![s.first()] + s.drop_first());
        assert(s =~= lead + trim_start_of(s));
        lead
    } else {
        assert(s =~= Seq::<char>::empty() + s);
        Seq::empty()
    }
}

proof fn lemma_trim_end(s: Seq<char>) -> (tail: Seq<char>)
    ensures
        s == trim_end_of(s) + tail,
        all_white(tail),
        trim_end_of(s).len() > 0 ==> !is_white_space(trim_end_of(s).last()) && trim_end_of(
            s,
        ).first() == s.first(),
    decreases s.len(),
{
    if s.len() > 0 && is_white_space(s.last()) {
        let rest = lemma_trim_end(s.drop_last());
        let tail = rest.push(s.last());
        assert(s =~= s.drop_last().push(s.last()));
        assert(s =~= trim_end_of(s) + tail);
        tail
    } else {
        assert(s =~= s + Seq::<char>::empty());
        Seq::empty()
    }
}

/// Trimming takes the white space at both ends away, all of it and nothing else.
pub proof fn law_trimming_takes_white_space_only(s: Seq<char>)
    ensures
        is_trimmed(trim_of(s), s),
{
    let lead = lemma_trim_start(s);
    let tail = lemma_trim_end(trim_start_of(s));
    assert(s =~= lead + trim_of(s) + tail);
}

/// A text is blank if and only if it holds nothing but white space.
pub proof fn law_blank_text_is_all_white(s: Seq<char>)
    ensures
        is_blank(s) == all_white(s),
{
    let lead = lemma_trim_start(s);
    let tail = lemma_trim_end(trim_start_of(s));
    let kept = trim_of(s);
    assert(s =~= lead + kept + tail);
    if kept.len() > 0 {
        assert(s[lead.len() as int] == kept.first());
    } else {
        assert(s =~= lead + tail);
        assert forall|i: int| 0 <= i < s.len() implies is_white_space(#[trigger] s[i]) by {
            if i < lead.len() {
                assert(s[i] == lead[i]);
            } else {
                assert(s[i] == tail[i - lead.len()]);
            }
        }
    }
}

/// Pieces put together again, with a separator between each two.
pub open spec fn joined<T>(pieces: Seq<Seq<T>>, separator: T) -> Seq<T>
    decreases pieces.len(),
{
    if pieces.len() == 0 {
        Seq::empty()
    } else if pieces.len() == 1 {
        pieces[0]
    } else {
        joined(pieces.drop_last(), separator).push(separator) + pieces.last()
    }
}

/// Splitting loses nothing: the pieces, with separators between them, are the whole again; and
/// no separator is left in a piece.
pub proof fn law_split_pieces_make_up_the_whole<T>(s: Seq<T>, separator: T)
    ensures
        joined(split_on(s, separator), separator) == s,
        forall|i: int|
            0 <= i < split_on(s, separator).len() ==> !(#[trigger] split_on(
                s,
                separator,
            )[i]).contains(separator),
    decreases s.len(),
{
    let pieces = split_on(s, separator);
    if s.len() == 0 {
        assert(pieces =~= seq![Seq::<T>::empty()]);
        assert(joined(pieces, separator) =~= s);
    } else {
        let before = split_on(s.drop_last(), separator);
        law_split_pieces_make_up_the_whole(s.drop_last(), separator);
        lemma_split_not_empty(s.drop_last(), separator);
        assert(s =~= s.drop_last().push(s.last()));
        if s.last() == separator {
            assert(pieces.drop_last() =~= before);
            assert(joined(pieces, separator) =~= s);
        } else {
            assert(pieces.drop_last() =~= before.drop_last());
            assert(joined(pieces, separator) =~= joined(before, separator).push(s.last()));
            assert forall|i: int| 0 <= i < pieces.len() implies !(
            #[trigger] pieces[i]).contains(separator) by {
                if i < before.len() - 1 {
                    assert(pieces[i] == before[i]);
                } else {
                    let last = before[before.len() - 1];
                    assert(!last.contains(separator));
                    assert(pieces[i] == last.push(s.last()));
                    assert forall|k: int| 0 <= k < pieces[i].len() implies pieces[i][k]
                        != separator by {
                        if k < last.len() {
                            assert(last.contains(last[k]));
                        }
                    }
                }
            }
        }
    }
}

/// A line that is ended is one more line, whether it ends with a newline or with a carriage
/// return before that; the lines before it stay as they are.
pub proof fn law_ended_line_is_one_more<T>(
    s: Seq<T>,
    line: Seq<T>,
    newline: T,
    carriage_return: T,
)
    requires
        s.len() > 0 ==> s.last() == newline,
        !line.contains(newline),
        line.len() > 0 ==> line.last() != carriage_return,
        newline != carriage_return,
    ensures
        lines_of(s + line.push(newline), newline, carriage_return) == lines_of(
            s,
            newline,
            carriage_return,
        ).push(line),
        lines_of(s + line.push(carriage_return).push(newline), newline, carriage_return)
            == lines_of(s, newline, carriage_return).push(line),
{
    lemma_ended_piece(s, line, newline, carriage_return, line);
    let with = line.push(carriage_return);
    assert(!with.contains(newline)) by {
        assert forall|i: int| 0 <= i < with.len() implies with[i] != newline by {
            if i < line.len() {
                assert(line.contains(line[i]));
            }
        }
    }
    assert(with.drop_last() =~= line);
    lemma_ended_piece(s, with, newline, carriage_return, line);
}

proof fn lemma_ended_piece<T>(
    s: Seq<T>,
    piece: Seq<T>,
    newline: T,
    carriage_return: T,
    line: Seq<T>,
)
    requires
        s.len() > 0 ==> s.last() == newline,
        !piece.contains(newline),
        line == crate::lines::without_last(piece, carriage_return),
    ensures
        lines_of(s + piece.push(newline), newline, carriage_return) == lines_of(
            s,
            newline,
            carriage_return,
        ).push(line),
{
    let strip = |piece: Seq<T>| crate::lines::without_last(piece, carriage_return);
    let after = s + piece.push(newline);
    assert(after.drop_last() =~= s + piece);
    let pieces = split_on(s + piece, newline);
    lemma_split_not_empty(s, newline);
    lemma_split_not_empty(s + piece, newline);
    assert(split_on(after, newline) == pieces.push(Seq::empty()));
    assert(split_on(after, newline).drop_last() =~= pieces);
    lemma_piece_after(s, piece, newline);
    if s.len() == 0 {
        assert(s =~= Seq::empty());
        assert(split_on(s, newline) =~= seq![Seq::<T>::empty()]);
        assert(lines_of(s, newline, carriage_return) =~= Seq::empty());
        assert(pieces.map_values(strip) =~= seq![line]);
    } else {
        let before = split_on(s.drop_last(), newline);
        assert(split_on(s, newline).drop_last() =~= before);
        assert(lines_of(s, newline, carriage_return) == before.map_values(strip));
        assert(pieces.map_values(strip) =~= before.map_values(strip).push(line));
    }
    assert(lines_of(after, newline, carriage_return) =~= lines_of(
        s,
        newline,
        carriage_return,
    ).push(line));
}

proof fn lemma_piece_after<T>(s: Seq<T>, piece: Seq<T>, newline: T)
    requires
        s.len() > 0 ==> s.last() == newline,
        !piece.contains(newline),
    ensures
        split_on(s + piece, newline) == if s.len() == 0 {
            seq![piece]
        } else {
            split_on(s.drop_last(), newline).push(piece)
        },
{
    if s.len() == 0 {
        assert(s + piece =~= piece);
        lemma_split_of_piece(piece, newline);
    } else {
        assert(s.drop_last().push(newline) =~= s);
        lemma_split_append_piece(s.drop_last(), newline, piece);
    }
}

/// A last line that is not ended counts too, as it is.
pub proof fn law_open_line_is_the_last<T>(s: Seq<T>, line: Seq<T>, newline: T, carriage_return: T)
    requires
        s.len() > 0 ==> s.last() == newline,
        !line.contains(newline),
        line.len() > 0,
    ensures
        lines_of(s + line, newline, carriage_return) == lines_of(s, newline, carriage_return).push(
            line,
        ),
        lines_of(Seq::<T>::empty(), newline, carriage_return).len() == 0,
{
    lemma_piece_after(s, line, newline);
    lemma_split_not_empty(s, newline);
    let empty = Seq::<T>::empty();
    assert(split_on(empty, newline) =~= seq![empty]);
    assert(lines_of(empty, newline, carriage_return) =~= Seq::empty());
    if s.len() == 0 {
        assert(s =~= empty);
        assert(lines_of(s + line, newline, carriage_return) =~= seq![line]);
    } else {
        let before = split_on(s.drop_last(), newline);
        assert(before.push(line).drop_last() =~= before);
        assert(split_on(s, newline).drop_last() =~= before);
        assert(lines_of(s + line, newline, carriage_return) =~= lines_of(
            s,
            newline,
            carriage_return,
        ).push(line));
    }
}

pub open spec fn is_number(s: Seq<char>) -> bool {
    s.len() > 0 && forall|i: int|
        0 <= i < s.len() ==> 0x30 <= (#[trigger] s[i]) as u32 && s[i] as u32 <= 0x39
}

proof fn lemma_number(s: Seq<char>)
    ensures
        is_number(s) == (s.len() > 0 && all_digits(s)),
{
    if all_digits(s) {
        assert forall|i: int| 0 <= i < s.len() implies 0x30 <= (#[trigger] s[i]) as u32
            && s[i] as u32 <= 0x39 by {
            assert(is_digit(s[i]));
        }
    }
}

/// An unsigned number is one or more digits, with at most a plus sign before them, and no larger
/// than the largest that fits.
pub proof fn law_unsigned_number_is_digits(s: Seq<char>, max: nat)
    ensures
        match unsigned_of(s, max) {
            Some(n) => n <= max && ({
                ||| is_number(s) && n == numeral_value(s)
                ||| s[0] == '+' && is_number(s.drop_first()) && n == numeral_value(s.drop_first())
            }),
            None => {
                &&& is_number(s) ==> numeral_value(s) > max
                &&& s.len() > 0 && s[0] == '+' && is_number(s.drop_first()) ==> numeral_value(
                    s.drop_first(),
                ) > max
            },
        },
{
    lemma_number(s);
    if s.len() > 0 {
        lemma_number(s.drop_first());
        if s[0] == '+' {
            assert(!is_digit(s[0]));
        }
    }
}

/// A digit more makes a number ten times as large, and adds the digit.
pub proof fn law_digits_count_in_tens(s: Seq<char>, digit: char)
    ensures
        numeral_value(s.push(digit)) == 10 * numeral_value(s) + ((digit as u32 - 0x30) as nat),
        numeral_value(Seq::empty()) == 0,
{
    assert(s.push(digit).drop_last() =~= s);
}

/// A signed number is an unsigned one, or a minus sign and digits; it fits 32 bits.
pub proof fn law_signed_number_may_be_negative(s: Seq<char>)
    ensures
        match signed_of(s) {
            Some(n) => -0x8000_0000 <= n <= 0x7fff_ffff && (s.len() > 0 && if s[0] == '-' {
                is_number(s.drop_first()) && n == -numeral_value(s.drop_first())
            } else {
                unsigned_of(s, 0x7fff_ffff) == Some(n as nat) && n >= 0
            }),
            None => {
                &&& s.len() > 0 && s[0] == '-' && is_number(s.drop_first()) ==> numeral_value(
                    s.drop_first(),
                ) > 0x8000_0000
                &&& s.len() > 0 && s[0] != '-' ==> unsigned_of(s, 0x7fff_ffff) is None
            },
        },
{
    if s.len() > 0 {
        lemma_number(s.drop_first());
    }
}

/// A text comes before another if it is the beginning of it, or has the smaller character where
/// the two first differ.
pub proof fn law_texts_are_ordered_by_the_first_difference(a: Seq<char>, b: Seq<char>, at: int)
    requires
        0 <= at <= a.len(),
        at <= b.len(),
        forall|i: int| 0 <= i < at ==> a[i] == b[i],
    ensures
        at == a.len() ==> text_le(a, b),
        at == b.len() && at < a.len() ==> !text_le(a, b),
        at < a.len() && at < b.len() && a[at] != b[at] ==> text_le(a, b) == (a[at] < b[at]),
    decreases at,
{
    if at > 0 {
        let (c, d) = (a.drop_first(), b.drop_first());
        assert forall|i: int| 0 <= i < at - 1 implies c[i] == d[i] by {
            assert(c[i] == a[i + 1] && d[i] == b[i + 1]);
        }
        law_texts_are_ordered_by_the_first_difference(c, d, at - 1);
        assert(a[0] == b[0]);
    }
}

/// A number that is written out denotes itself, in digits, and does not begin with a zero unless
/// it is zero.
pub proof fn law_written_number_is_the_shortest(n: nat)
    ensures
        is_number(numeral_of(n)),
        numeral_value(numeral_of(n)) == n,
        numeral_of(n).len() > 1 ==> numeral_of(n)[0] != '0',
    decreases n,
{
    lemma_numeral_round_trip(n);
    lemma_number(numeral_of(n));
    if n >= 10 {
        law_written_number_is_the_shortest(n / 10);
        let head = numeral_of(n / 10);
        assert(numeral_of(n)[0] == head[0]);
        if n / 10 < 10 {
            assert(head[0] as u32 == 0x30 + n / 10);
        } else {
            lemma_numeral_round_trip(n / 10 / 10);
        }
    }
}

} // verus!
