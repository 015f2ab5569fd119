//! Text as a sequence of characters: trimming, splitting, decimal numerals and
//! the order of strings.

use vstd::prelude::*;

verus! {

/// The characters with Unicode's `White_Space` property.
pub open spec fn is_white_space(c: char) -> bool {
    let code = c as u32;
    ||| 0x09 <= code <= 0x0d
    ||| code == 0x20
    ||| code == 0x85
    ||| code == 0xa0
    ||| code == 0x1680
    ||| 0x2000 <= code <= 0x200a
    ||| code == 0x2028
    ||| code == 0x2029
    ||| code == 0x202f
    ||| code == 0x205f
    ||| code == 0x3000
}

/// Whether two strings hold the same characters.
pub fn same_text(a: &str, b: &str) -> (same: bool)
    ensures
        same == (a@ == b@),
{
    a.to_owned() == b.to_owned()
}

/// What is left of `s` once its leading white space is gone.
pub open spec fn trim_start_of(s: Seq<char>) -> Seq<char>
    decreases s.len(),
{
    if s.len() > 0 && is_white_space(s.first()) {
        trim_start_of(s.drop_first())
    } else {
        s
    }
}

/// What is left of `s` once its trailing white space is gone.
pub open spec fn trim_end_of(s: Seq<char>) -> Seq<char>
    decreases s.len(),
{
    if s.len() > 0 && is_white_space(s.last()) {
        trim_end_of(s.drop_last())
    } else {
        s
    }
}

/// `s` without white space at either end.
pub open spec fn trim_of(s: Seq<char>) -> Seq<char> {
    trim_end_of(trim_start_of(s))
}

pub fn is_white_space_char(c: char) -> (yes: bool)
    ensures
        yes == is_white_space(c),
{
    let code: u32 = c as u32;
    (0x09 <= code && code <= 0x0d) || code == 0x20 || code == 0x85 || code == 0xa0 || code == 0x1680
        || (0x2000 <= code && code <= 0x200a) || code == 0x2028 || code == 0x2029 || code == 0x202f
        || code == 0x205f || code == 0x3000
}

/// The characters of a string, in order.
pub fn chars_of(s: &str) -> (chars: Vec<char>)
    ensures
        chars@ == s@,
{
    let mut chars: Vec<char> = Vec::new();
    for c in iter: s.chars()
        invariant
            iter.seq() == s@,
            chars@ == s@.take(iter.index() as int),
    {
        chars.push(c);
        proof {
            assert(s@.take(iter.index() + 1) =~= s@.take(iter.index() as int).push(c));
        }
    }
    assert(s@.take(s@.len() as int) =~= s@);
    chars
}

/// Removes white space from both ends.
pub fn trim(s: &str) -> (trimmed: String)
    ensures
        trimmed@ == trim_of(s@),
{
    let chars = chars_of(s);
    let mut lo: usize = 0;
    assert(chars@.skip(0) =~= chars@);
    while lo < chars.len() && is_white_space_char(chars[lo])
        invariant
            lo <= chars.len(),
            chars@ == s@,
            trim_start_of(s@) == trim_start_of(chars@.skip(lo as int)),
        decreases chars.len() - lo,
    {
        assert(chars@.skip(lo as int).drop_first() =~= chars@.skip(lo + 1));
        lo = lo + 1;
    }
    let mut hi: usize = chars.len();
    let ghost kept = trim_start_of(s@);
    assert(kept =~= chars@.subrange(lo as int, hi as int));
    while lo < hi && is_white_space_char(chars[hi - 1])
        invariant
            lo <= hi <= chars.len(),
            trim_end_of(kept) == trim_end_of(chars@.subrange(lo as int, hi as int)),
        decreases hi,
    {
        assert(chars@.subrange(lo as int, hi as int).drop_last() =~= chars@.subrange(
            lo as int,
            hi - 1,
        ));
        hi = hi - 1;
    }
    assert(trim_end_of(chars@.subrange(lo as int, hi as int)) == chars@.subrange(
        lo as int,
        hi as int,
    ));
    s.substring_char(lo, hi).to_owned()
}

/// The pieces of `s` between the occurrences of `separator`, empty ones too. There is one more
/// piece than there are separators.
pub open spec fn split_on<T>(s: Seq<T>, separator: T) -> Seq<Seq<T>>
    decreases s.len(),
{
    if s.len() == 0 {
        seq![Seq::empty()]
    } else {
        let before = split_on(s.drop_last(), separator);
        if s.last() == separator {
            before.push(Seq::empty())
        } else {
            before.update(before.len() - 1, before.last().push(s.last()))
        }
    }
}

/// Splitting gives at least one piece.
pub proof fn lemma_split_not_empty<T>(s: Seq<T>, separator: T)
    ensures
        split_on(s, separator).len() >= 1,
    decreases s.len(),
{
    if s.len() > 0 {
        lemma_split_not_empty(s.drop_last(), separator);
    }
}

/// A sequence without the separator is its own single piece.
pub proof fn lemma_split_of_piece<T>(s: Seq<T>, separator: T)
    requires
        !s.contains(separator),
    ensures
        split_on(s, separator) == seq![s],
    decreases s.len(),
{
    if s.len() > 0 {
        assert forall|i: int| 0 <= i < s.drop_last().len() implies s.drop_last()[i]
            != separator by {
            assert(s.contains(s[i]));
        }
        lemma_split_of_piece(s.drop_last(), separator);
        assert(s.contains(s.last()));
        assert(split_on(s, separator) =~= seq![s.drop_last().push(s.last())]);
        assert(s.drop_last().push(s.last()) =~= s);
    } else {
        assert(s =~= Seq::empty());
        assert(split_on(s, separator) =~= seq![s]);
    }
}

/// A separator followed by a piece without separators adds that piece.
pub proof fn lemma_split_append_piece<T>(head: Seq<T>, separator: T, piece: Seq<T>)
    requires
        !piece.contains(separator),
    ensures
        split_on(head.push(separator) + piece, separator) == split_on(head, separator).push(piece),
    decreases piece.len(),
{
    let whole = head.push(separator) + piece;
    if piece.len() == 0 {
        assert(whole =~= head.push(separator));
        assert(whole.drop_last() =~= head);
        assert(piece =~= Seq::empty());
    } else {
        let shorter = piece.drop_last();
        assert forall|i: int| 0 <= i < shorter.len() implies shorter[i] != separator by {
            assert(piece.contains(piece[i]));
        }
        lemma_split_append_piece(head, separator, shorter);
        assert(whole.drop_last() =~= head.push(separator) + shorter);
        assert(piece.contains(piece.last()));
        assert(whole.last() == piece.last());
        let before = split_on(whole.drop_last(), separator);
        assert(before == split_on(head, separator).push(shorter));
        assert(shorter.push(piece.last()) =~= piece);
        assert(before.update(before.len() - 1, before.last().push(whole.last())) =~= split_on(
            head,
            separator,
        ).push(piece));
    }
}

/// The characters that each of some strings holds.
pub open spec fn views_of(strings: Seq<String>) -> Seq<Seq<char>> {
    strings.map_values(|s: String| s@)
}

/// Splits a string at every occurrence of a character.
pub fn split(s: &str, separator: char) -> (pieces: Vec<String>)
    ensures
        views_of(pieces@) == split_on(s@, separator),
{
    let chars = chars_of(s);
    let mut pieces: Vec<String> = Vec::new();
    let mut start: usize = 0;
    let mut i: usize = 0;
    assert(chars@.subrange(0, 0) =~= Seq::empty());
    assert(views_of(pieces@).push(chars@.subrange(0, 0)) =~= split_on(chars@.take(0), separator));
    while i < chars.len()
        invariant
            start <= i <= chars.len(),
            chars@ == s@,
            views_of(pieces@).push(chars@.subrange(start as int, i as int)) == split_on(
                chars@.take(i as int),
                separator,
            ),
        decreases chars.len() - i,
    {
        let ghost before = split_on(chars@.take(i as int), separator);
        let ghost so_far = views_of(pieces@);
        assert(chars@.take(i + 1).drop_last() =~= chars@.take(i as int));
        assert(chars@.take(i + 1).last() == chars@[i as int]);
        if chars[i] == separator {
            pieces.push(s.substring_char(start, i).to_owned());
            assert(views_of(pieces@) =~= so_far.push(chars@.subrange(start as int, i as int)));
            start = i + 1;
            assert(chars@.subrange(start as int, i + 1) =~= Seq::empty());
        } else {
            assert(chars@.subrange(start as int, i + 1) =~= chars@.subrange(
                start as int,
                i as int,
            ).push(chars@[i as int]));
            assert(so_far.push(chars@.subrange(start as int, i + 1)) =~= before.update(
                before.len() - 1,
                before.last().push(chars@[i as int]),
            ));
        }
        i = i + 1;
    }
    let ghost so_far = views_of(pieces@);
    pieces.push(s.substring_char(start, i).to_owned());
    assert(views_of(pieces@) =~= so_far.push(chars@.subrange(start as int, i as int)));
    assert(chars@.take(i as int) =~= chars@);
    pieces
}

/// The characters that each of some vectors holds.
pub open spec fn char_views_of(vectors: Seq<Vec<char>>) -> Seq<Seq<char>> {
    vectors.map_values(|v: Vec<char>| v@)
}

/// Splits characters at every occurrence of one.
pub fn split_chars(chars: &Vec<char>, separator: char) -> (pieces: Vec<Vec<char>>)
    ensures
        char_views_of(pieces@) == split_on(chars@, separator),
{
    let mut pieces: Vec<Vec<char>> = Vec::new();
    let mut piece: Vec<char> = Vec::new();
    let mut i: usize = 0;
    assert(char_views_of(pieces@).push(piece@) =~= split_on(chars@.take(0), separator));
    while i < chars.len()
        invariant
            i <= chars.len(),
            char_views_of(pieces@).push(piece@) == split_on(chars@.take(i as int), separator),
        decreases chars.len() - i,
    {
        let ghost before = split_on(chars@.take(i as int), separator);
        let ghost so_far = char_views_of(pieces@);
        let ghost open_piece = piece@;
        assert(chars@.take(i + 1).drop_last() =~= chars@.take(i as int));
        assert(chars@.take(i + 1).last() == chars@[i as int]);
        if chars[i] == separator {
            pieces.push(piece);
            piece = Vec::new();
            assert(char_views_of(pieces@) =~= so_far.push(open_piece));
            assert(piece@ =~= Seq::empty());
        } else {
            piece.push(chars[i]);
            assert(so_far.push(piece@) =~= before.update(
                before.len() - 1,
                before.last().push(chars@[i as int]),
            ));
        }
        i = i + 1;
    }
    let ghost so_far = char_views_of(pieces@);
    let ghost last = piece@;
    pieces.push(piece);
    assert(char_views_of(pieces@) =~= so_far.push(last));
    assert(chars@.take(i as int) =~= chars@);
    pieces
}

/// The ten decimal digits.
pub open spec fn is_digit(c: char) -> bool {
    '0' as u32 <= c as u32 <= '9' as u32
}

pub open spec fn digit_value(c: char) -> nat {
    (c as u32 - '0' as u32) as nat
}

pub open spec fn digit_char(value: nat) -> char {
    ('0' as u32 + value) as char
}

pub open spec fn all_digits(s: Seq<char>) -> bool {
    forall|i: int| 0 <= i < s.len() ==> is_digit(#[trigger] s[i])
}

/// The number that a sequence of digits denotes.
pub open spec fn numeral_value(s: Seq<char>) -> nat
    decreases s.len(),
{
    if s.len() == 0 {
        0
    } else {
        10 * numeral_value(s.drop_last()) + digit_value(s.last())
    }
}

/// The shortest decimal numeral of a number.
pub open spec fn numeral_of(n: nat) -> Seq<char>
    decreases n,
{
    if n < 10 {
        seq![digit_char(n)]
    } else {
        numeral_of(n / 10).push(digit_char(n % 10))
    }
}

/// What a string denotes as an unsigned number of at most `max`: digits, at least one, with an
/// optional plus sign before them.
pub open spec fn unsigned_of(s: Seq<char>, max: nat) -> Option<nat> {
    let digits = if s.len() > 0 && s[0] == '+' {
        s.drop_first()
    } else {
        s
    };
    if digits.len() > 0 && all_digits(digits) && numeral_value(digits) <= max {
        Some(numeral_value(digits))
    } else {
        None
    }
}

/// The numeral of a number is made of digits and denotes that number.
pub proof fn lemma_numeral_round_trip(n: nat)
    ensures
        numeral_of(n).len() > 0,
        all_digits(numeral_of(n)),
        numeral_value(numeral_of(n)) == n,
    decreases n,
{
    if n < 10 {
        let s = numeral_of(n);
        assert(s.drop_last() =~= Seq::empty());
        assert(numeral_value(Seq::empty()) == 0);
    } else {
        lemma_numeral_round_trip(n / 10);
        let s = numeral_of(n);
        assert(s.drop_last() =~= numeral_of(n / 10));
        assert forall|i: int| 0 <= i < s.len() implies is_digit(#[trigger] s[i]) by {
            if i < s.len() - 1 {
                assert(s[i] == numeral_of(n / 10)[i]);
            }
        }
    }
}

/// Reading a number's numeral gives the number back, wherever it fits.
pub proof fn lemma_unsigned_of_numeral(n: nat, max: nat)
    requires
        n <= max,
    ensures
        unsigned_of(numeral_of(n), max) == Some(n),
{
    lemma_numeral_round_trip(n);
    assert(is_digit(numeral_of(n)[0]));
}

/// Reads an unsigned number of at most `max`.
pub fn parse_unsigned_chars(chars: &Vec<char>, max: u64) -> (number: Option<u64>)
    ensures
        match number {
            Some(n) => unsigned_of(chars@, max as nat) == Some(n as nat),
            None => unsigned_of(chars@, max as nat) is None,
        },
{
    let start: usize = if chars.len() > 0 && chars[0] == '+' {
        1
    } else {
        0
    };
    let ghost digits = chars@.skip(start as int);
    assert(start == 0 ==> digits =~= chars@);
    assert(start == 1 ==> digits =~= chars@.drop_first());
    if chars.len() == start {
        return None;
    }
    let mut value: u64 = 0;
    let mut too_large: bool = false;
    let mut i: usize = start;
    while i < chars.len()
        invariant
            start <= i <= chars.len(),
            start <= 1,
            digits == chars@.skip(start as int),
            value <= max,
            forall|k: int| 0 <= k < i - start ==> is_digit(#[trigger] digits[k]),
            !too_large ==> value == numeral_value(digits.take(i - start)),
            too_large ==> numeral_value(digits.take(i - start)) > max,
            unsigned_of(chars@, max as nat) == if all_digits(digits) && numeral_value(digits)
                <= max {
                Some(numeral_value(digits))
            } else {
                None
            },
        decreases chars.len() - i,
    {
        let c = chars[i];
        assert(digits[i - start] == c);
        if !('0' as u32 <= c as u32 && c as u32 <= '9' as u32) {
            assert(!is_digit(digits[i - start]));
            return None;
        }
        proof {
            assert(digits.take(i - start + 1).drop_last() =~= digits.take(i - start));
        }
        if !too_large {
            let next: u128 = 10 * (value as u128) + (c as u32 - '0' as u32) as u128;
            if next > max as u128 {
                too_large = true;
            } else {
                value = next as u64;
            }
        }
        i = i + 1;
    }
    assert(digits.take(i - start) =~= digits);
    if too_large {
        None
    } else {
        Some(value)
    }
}

/// Reads an unsigned number of at most `max`.
pub fn parse_unsigned(s: &str, max: u64) -> (number: Option<u64>)
    ensures
        match number {
            Some(n) => unsigned_of(s@, max as nat) == Some(n as nat),
            None => unsigned_of(s@, max as nat) is None,
        },
{
    parse_unsigned_chars(&chars_of(s), max)
}

/// What a string denotes as a number of 32 bits with a sign: digits, at least one, with an
/// optional plus or minus sign before them.
pub open spec fn signed_of(s: Seq<char>) -> Option<int> {
    if s.len() > 0 && s[0] == '-' {
        let digits = s.drop_first();
        if digits.len() > 0 && all_digits(digits) && -numeral_value(digits) >= i32::MIN {
            Some(-numeral_value(digits))
        } else {
            None
        }
    } else {
        match unsigned_of(s, i32::MAX as nat) {
            Some(n) => Some(n as int),
            None => None,
        }
    }
}

/// Reads a number of 32 bits with a sign.
pub fn parse_signed(s: &str) -> (number: Option<i32>)
    ensures
        match number {
            Some(n) => signed_of(s@) == Some(n as int),
            None => signed_of(s@) is None,
        },
{
    let chars = chars_of(s);
    if chars.len() > 0 && chars[0] == '-' {
        let digits = chars_of(s.substring_char(1, chars.len()));
        assert(digits@ =~= s@.drop_first());
        if digits.len() > 0 && digits[0] == '+' {
            assert(!is_digit(digits@[0]));
            return None;
        }
        match parse_unsigned_chars(&digits, 0x8000_0000) {
            Some(n) => Some((-(n as i64)) as i32),
            None => None,
        }
    } else {
        match parse_unsigned_chars(&chars, i32::MAX as u64) {
            Some(n) => Some(n as i32),
            None => None,
        }
    }
}

fn digit_text(digit: u128) -> (text: &'static str)
    requires
        digit < 10,
    ensures
        text@ == seq![digit_char(digit as nat)],
{
    proof {
        reveal_strlit("0");
        reveal_strlit("1");
        reveal_strlit("2");
        reveal_strlit("3");
        reveal_strlit("4");
        reveal_strlit("5");
        reveal_strlit("6");
        reveal_strlit("7");
        reveal_strlit("8");
        reveal_strlit("9");
    }
    let text: &'static str = match digit {
        0 => "0",
        1 => "1",
        2 => "2",
        3 => "3",
        4 => "4",
        5 => "5",
        6 => "6",
        7 => "7",
        8 => "8",
        _ => "9",
    };
    assert(text@ =~= seq![digit_char(digit as nat)]);
    text
}

/// Writes a number as its shortest decimal numeral.
pub fn numeral(n: u128) -> (text: String)
    ensures
        text@ == numeral_of(n as nat),
    decreases n,
{
    if n < 10 {
        digit_text(n).to_owned()
    } else {
        let mut text = numeral(n / 10);
        text.append(digit_text(n % 10));
        proof {
            assert(text@ =~= numeral_of(n as nat));
        }
        text
    }
}

/// The order of strings: by the code of the first character in which they differ, and a proper
/// prefix before the longer string.
pub open spec fn text_le(a: Seq<char>, b: Seq<char>) -> bool
    decreases a.len(),
{
    if a.len() == 0 {
        true
    } else if b.len() == 0 {
        false
    } else if a[0] == b[0] {
        text_le(a.drop_first(), b.drop_first())
    } else {
        (a[0] as int) < (b[0] as int)
    }
}

pub proof fn lemma_text_le_total(a: Seq<char>, b: Seq<char>)
    ensures
        text_le(a, b) || text_le(b, a),
    decreases a.len(),
{
    if a.len() > 0 && b.len() > 0 && a[0] == b[0] {
        lemma_text_le_total(a.drop_first(), b.drop_first());
    }
}

pub proof fn lemma_text_le_transitive(a: Seq<char>, b: Seq<char>, c: Seq<char>)
    requires
        text_le(a, b),
        text_le(b, c),
    ensures
        text_le(a, c),
    decreases a.len(),
{
    if a.len() > 0 && a[0] == b[0] && b[0] == c[0] {
        lemma_text_le_transitive(a.drop_first(), b.drop_first(), c.drop_first());
    }
}

pub proof fn lemma_text_le_antisymmetric(a: Seq<char>, b: Seq<char>)
    requires
        text_le(a, b),
        text_le(b, a),
    ensures
        a == b,
    decreases a.len(),
{
    if a.len() > 0 {
        lemma_text_le_antisymmetric(a.drop_first(), b.drop_first());
        assert(a =~= seq![a[0]] + a.drop_first());
        assert(b =~= seq![b[0]] + b.drop_first());
    } else {
        assert(a =~= b);
    }
}

/// A character's code fits 32 bits.
pub proof fn lemma_char_code(c: char)
    ensures
        c as u32 == c as int,
{
}

/// Whether `a` comes before `b` or equals it.
pub fn is_text_le(a: &str, b: &str) -> (yes: bool)
    ensures
        yes == text_le(a@, b@),
{
    let left = chars_of(a);
    let right = chars_of(b);
    let mut i: usize = 0;
    assert(left@.skip(0) =~= left@);
    assert(right@.skip(0) =~= right@);
    while i < left.len() && i < right.len() && left[i] == right[i]
        invariant
            i <= left.len(),
            i <= right.len(),
            text_le(left@, right@) == text_le(left@.skip(i as int), right@.skip(i as int)),
        decreases left.len() - i,
    {
        assert(left@.skip(i as int).drop_first() =~= left@.skip(i + 1));
        assert(right@.skip(i as int).drop_first() =~= right@.skip(i + 1));
        i = i + 1;
    }
    if i == left.len() {
        true
    } else if i == right.len() {
        false
    } else {
        proof {
            lemma_char_code(left@[i as int]);
            lemma_char_code(right@[i as int]);
        }
        (left[i] as u32) < (right[i] as u32)
    }
}

/// Puts two texts together.
pub fn join(head: &str, tail: &str) -> (joined: String)
    ensures
        joined@ == head@ + tail@,
{
    let mut joined = head.to_owned();
    joined.append(tail);
    joined
}

pub fn push_text(texts: &mut Vec<String>, text: &str)
    ensures
        views_of(final(texts)@) == views_of(old(texts)@).push(text@),
{
    texts.push(text.to_owned());
    assert(views_of(texts@) =~= views_of(old(texts)@).push(text@));
}

/// Whether a line holds nothing but white space.
pub open spec fn is_blank(line: Seq<char>) -> bool {
    trim_of(line).len() == 0
}

pub fn is_blank_line(line: &str) -> (yes: bool)
    ensures
        yes == is_blank(line@),
{
    trim(line).as_str().unicode_len() == 0
}

pub open spec fn option_view(text: Option<String>) -> Option<Seq<char>> {
    match text {
        Some(text) => Some(text@),
        None => None,
    }
}

pub open spec fn str_view(text: Option<&str>) -> Option<Seq<char>> {
    match text {
        Some(text) => Some(text@),
        None => None,
    }
}

/// Whether a text begins with another.
pub fn starts_with(s: &str, prefix: &str) -> (yes: bool)
    ensures
        yes == prefix@.is_prefix_of(s@),
{
    let len: usize = prefix.unicode_len();
    let whole: usize = s.unicode_len();
    len <= whole && same_text(s.substring_char(0, len), prefix)
}

/// Whether a text ends with another.
pub fn ends_with(s: &str, suffix: &str) -> (yes: bool)
    ensures
        yes == suffix@.is_suffix_of(s@),
{
    let len: usize = suffix.unicode_len();
    let whole: usize = s.unicode_len();
    len <= whole && same_text(s.substring_char(whole - len, whole), suffix)
}

} // verus!
