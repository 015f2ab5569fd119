//! Lines of text, and text in bytes.

use crate::text::{lemma_split_not_empty, split, split_on, views_of};
use vstd::prelude::*;
use vstd::utf8::{decode_utf8, valid_utf8};

verus! {

/// A line without the carriage return that it ends with, if any.
pub open spec fn without_last<T>(line: Seq<T>, carriage_return: T) -> Seq<T> {
    if line.len() > 0 && line.last() == carriage_return {
        line.drop_last()
    } else {
        line
    }
}

/// The lines of `s`. A line ends with a newline, or a carriage return and a newline; the last
/// one need not be ended.
pub open spec fn lines_of<T>(s: Seq<T>, newline: T, carriage_return: T) -> Seq<Seq<T>> {
    let pieces = split_on(s, newline);
    let ended = pieces.drop_last().map_values(
        |line: Seq<T>| without_last(line, carriage_return),
    );
    if pieces.last().len() == 0 {
        ended
    } else {
        ended.push(pieces.last())
    }
}

/// The lines of a text.
pub open spec fn text_lines(s: Seq<char>) -> Seq<Seq<char>> {
    lines_of(s, '\n', '\r')
}

/// The lines of a text that is still in bytes.
pub open spec fn byte_lines(s: Seq<u8>) -> Seq<Seq<u8>> {
    lines_of(s, 0x0au8, 0x0du8)
}

/// Cuts a text into its lines.
pub fn lines(s: &str) -> (lines: Vec<String>)
    ensures
        views_of(lines@) == text_lines(s@),
{
    let pieces = split(s, '\n');
    let ghost whole = views_of(pieces@);
    proof {
        lemma_split_not_empty(s@, '\n');
        assert(pieces@.len() == whole.len());
    }
    let mut lines: Vec<String> = Vec::new();
    let mut i: usize = 0;
    let ghost ended = whole.drop_last().map_values(|line: Seq<char>| without_last(line, '\r'));
    while i < pieces.len() - 1
        invariant
            1 <= pieces@.len(),
            i <= pieces@.len() - 1,
            whole == views_of(pieces@),
            ended == whole.drop_last().map_values(|line: Seq<char>| without_last(line, '\r')),
            views_of(lines@) == ended.take(i as int),
        decreases pieces@.len() - i,
    {
        let piece = pieces[i].as_str();
        let len: usize = piece.unicode_len();
        let kept: usize = if len > 0 && piece.get_char(len - 1) == '\r' {
            len - 1
        } else {
            len
        };
        let ghost before = views_of(lines@);
        let line = piece.substring_char(0, kept).to_owned();
        proof {
            assert(whole[i as int] == piece@);
            assert(line@ =~= ended[i as int]);
        }
        lines.push(line);
        assert(views_of(lines@) =~= before.push(ended[i as int]));
        assert(ended.take(i + 1) =~= before.push(ended[i as int]));
        i = i + 1;
    }
    let last = pieces[i].clone();
    assert(ended.take(i as int) =~= ended);
    assert(whole.last() == last@);
    if last.as_str().unicode_len() > 0 {
        let ghost before = views_of(lines@);
        let ghost end = last@;
        lines.push(last);
        assert(views_of(lines@) =~= before.push(end));
    }
    lines
}

/// The bytes that each of some vectors holds.
pub open spec fn byte_views_of(vectors: Seq<Vec<u8>>) -> Seq<Seq<u8>> {
    vectors.map_values(|v: Vec<u8>| v@)
}

/// Cuts bytes into the lines of the text that they hold.
pub fn lines_in_bytes(bytes: &Vec<u8>) -> (lines: Vec<Vec<u8>>)
    ensures
        byte_views_of(lines@) == byte_lines(bytes@),
{
    let ghost strip = |line: Seq<u8>| without_last(line, 0x0du8);
    let mut lines: Vec<Vec<u8>> = Vec::new();
    let mut line: Vec<u8> = Vec::new();
    let mut i: usize = 0;
    proof {
        let pieces = split_on(bytes@.take(0), 0x0au8);
        assert(byte_views_of(lines@) =~= pieces.drop_last().map_values(strip));
    }
    while i < bytes.len()
        invariant
            i <= bytes.len(),
            strip == (|line: Seq<u8>| without_last(line, 0x0du8)),
            split_on(bytes@.take(i as int), 0x0au8).len() >= 1,
            line@ == split_on(bytes@.take(i as int), 0x0au8).last(),
            byte_views_of(lines@) == split_on(bytes@.take(i as int), 0x0au8).drop_last().map_values(
                strip,
            ),
        decreases bytes.len() - i,
    {
        let ghost pieces = split_on(bytes@.take(i as int), 0x0au8);
        let ghost more = split_on(bytes@.take(i + 1), 0x0au8);
        let ghost before = byte_views_of(lines@);
        let ghost open_line = line@;
        assert(bytes@.take(i + 1).drop_last() =~= bytes@.take(i as int));
        assert(bytes@.take(i + 1).last() == bytes@[i as int]);
        if bytes[i] == 0x0a {
            let mut ended: Vec<u8> = Vec::new();
            std::mem::swap(&mut ended, &mut line);
            if ended.len() > 0 && ended[ended.len() - 1] == 0x0d {
                ended.pop();
            }
            proof {
                assert(ended@ =~= strip(open_line));
                assert(more.drop_last() =~= pieces);
                assert(pieces.map_values(strip) =~= pieces.drop_last().map_values(strip).push(
                    strip(pieces.last()),
                ));
            }
            let ghost done = ended@;
            lines.push(ended);
            assert(byte_views_of(lines@) =~= before.push(done));
        } else {
            line.push(bytes[i]);
            assert(more.drop_last() =~= pieces.drop_last());
            assert(line@ =~= more.last());
        }
        i = i + 1;
    }
    assert(bytes@.take(i as int) =~= bytes@);
    if line.len() > 0 {
        let ghost before = byte_views_of(lines@);
        let ghost end = line@;
        lines.push(line);
        assert(byte_views_of(lines@) =~= before.push(end));
    }
    lines
}

/// What [`String::from_utf8`] says about bytes that are no UTF-8.
pub uninterp spec fn utf8_error_text(bytes: Seq<u8>) -> Seq<char>;

/// Calls [`String::from_utf8`]. It gives the text that the bytes encode if they are UTF-8, and
/// otherwise an error whose words depend on the bytes alone.
#[verifier::external_body]
pub(crate) fn text_from_utf8(bytes: Vec<u8>) -> (text: Result<String, String>)
    ensures
        text is Ok == valid_utf8(bytes@),
        text matches Ok(decoded) ==> decoded@ == decode_utf8(bytes@),
        text matches Err(words) ==> words@ == utf8_error_text(bytes@),
{
    String::from_utf8(bytes).map_err(|error| error.to_string())
}

} // verus!
