//! Mouse events and the SGR sequences that terminals report them with:
//! `ESC [ < code ; column ; row` and then `M`, or `m` for a release.

use crate::layout::Rect;
use crate::text::{
    char_views_of, chars_of, is_digit, lemma_numeral_round_trip, lemma_split_append_piece,
    lemma_split_of_piece, lemma_unsigned_of_numeral, numeral, numeral_of, parse_unsigned_chars,
    split_chars, split_on, unsigned_of,
};
use vstd::prelude::*;

verus! {

#[derive(Clone, Copy, Debug, PartialEq, Eq, Structural)]
pub enum MouseButton {
    Left,
    Middle,
    Right,
}

#[derive(Clone, Copy, Debug, PartialEq, Eq, Structural)]
pub enum MouseEventKind {
    Down(MouseButton),
    Up(MouseButton),
    Drag(MouseButton),
    Moved,
    ScrollUp,
    ScrollDown,
    ScrollLeft,
    ScrollRight,
}

/// The modifier keys that a mouse report can carry.
#[derive(Clone, Copy, Debug, PartialEq, Eq, Structural)]
pub struct KeyModifiers {
    pub shift: bool,
    pub alt: bool,
    pub control: bool,
}

/// A mouse event, in cells counted from zero.
#[derive(Clone, Copy, Debug, PartialEq, Eq, Structural)]
pub struct MouseEvent {
    pub kind: MouseEventKind,
    pub column: u16,
    pub row: u16,
    pub modifiers: KeyModifiers,
}

#[derive(Clone, Copy, Debug, PartialEq, Eq, Structural)]
pub enum ParsedSgrMouseSequence {
    Complete { event: MouseEvent, consumed: usize },
    Incomplete,
    Invalid,
}

/// What the beginning of some input is.
pub enum MouseToken {
    /// A mouse report of so many bytes.
    Report(MouseEvent, nat),
    /// The beginning of a report, if the right bytes follow.
    Partial,
    /// No report, whatever follows.
    NoReport,
}

impl View for ParsedSgrMouseSequence {
    type V = MouseToken;

    open spec fn view(&self) -> MouseToken {
        match *self {
            ParsedSgrMouseSequence::Complete { event, consumed } => MouseToken::Report(
                event,
                consumed as nat,
            ),
            ParsedSgrMouseSequence::Incomplete => MouseToken::Partial,
            ParsedSgrMouseSequence::Invalid => MouseToken::NoReport,
        }
    }
}

pub open spec fn mouse_prefix() -> Seq<u8> {
    seq![0x1bu8, 0x5b, 0x3c]
}

/// The bytes between the prefix and the final letter: digits and semicolons.
pub open spec fn is_body_byte(b: u8) -> bool {
    0x30 <= b <= 0x39 || b == 0x3b
}

/// Where the body that starts at `from` ends: the first position that holds another byte.
pub open spec fn body_end(bytes: Seq<u8>, from: int) -> int
    decreases bytes.len() - from,
{
    if 0 <= from < bytes.len() && is_body_byte(bytes[from]) {
        body_end(bytes, from + 1)
    } else {
        from
    }
}

/// Bytes below 128 as characters.
pub open spec fn ascii_text(bytes: Seq<u8>) -> Seq<char> {
    bytes.map_values(|b: u8| b as char)
}

/// Characters below 128 as bytes.
pub open spec fn ascii_bytes(text: Seq<char>) -> Seq<u8> {
    text.map_values(|c: char| c as u8)
}

pub open spec fn bit(code: nat, weight: nat) -> bool {
    (code / weight) % 2 == 1
}

pub open spec fn button_of(code: nat) -> Option<MouseButton> {
    if code % 4 == 0 {
        Some(MouseButton::Left)
    } else if code % 4 == 1 {
        Some(MouseButton::Middle)
    } else if code % 4 == 2 {
        Some(MouseButton::Right)
    } else {
        None
    }
}

pub open spec fn modifiers_of(code: nat) -> KeyModifiers {
    KeyModifiers { shift: bit(code, 4), alt: bit(code, 8), control: bit(code, 16) }
}

/// The kind of event that a code and a final letter report.
pub open spec fn kind_of(code: nat, release: bool) -> Option<MouseEventKind> {
    if bit(code, 64) {
        if code % 4 == 0 {
            Some(MouseEventKind::ScrollUp)
        } else if code % 4 == 1 {
            Some(MouseEventKind::ScrollDown)
        } else if code % 4 == 2 {
            Some(MouseEventKind::ScrollLeft)
        } else {
            Some(MouseEventKind::ScrollRight)
        }
    } else if release {
        match button_of(code) {
            Some(button) => Some(MouseEventKind::Up(button)),
            None => Some(MouseEventKind::Up(MouseButton::Left)),
        }
    } else if bit(code, 32) {
        match button_of(code) {
            Some(button) => Some(MouseEventKind::Drag(button)),
            None => Some(MouseEventKind::Moved),
        }
    } else {
        match button_of(code) {
            Some(button) => Some(MouseEventKind::Down(button)),
            None => None,
        }
    }
}

/// The event that a body such as `0;26;4` reports: a code, a column and a row, the latter two
/// counted from one.
pub open spec fn body_event(body: Seq<char>, release: bool) -> Option<MouseEvent> {
    let parts = split_on(body, ';');
    if parts.len() != 3 {
        None
    } else {
        match (
            unsigned_of(parts[0], u16::MAX as nat),
            unsigned_of(parts[1], u16::MAX as nat),
            unsigned_of(parts[2], u16::MAX as nat),
        ) {
            (Some(code), Some(column), Some(row)) => if column == 0 || row == 0 {
                None
            } else {
                match kind_of(code, release) {
                    Some(kind) => Some(
                        MouseEvent {
                            kind,
                            column: (column - 1) as u16,
                            row: (row - 1) as u16,
                            modifiers: modifiers_of(code),
                        },
                    ),
                    None => None,
                }
            },
            _ => None,
        }
    }
}

/// What some input begins with.
pub open spec fn mouse_token(bytes: Seq<u8>) -> MouseToken {
    let end = body_end(bytes, 3);
    if !mouse_prefix().is_prefix_of(bytes) {
        MouseToken::NoReport
    } else if end >= bytes.len() {
        MouseToken::Partial
    } else if bytes[end] != 0x4d && bytes[end] != 0x6d {
        MouseToken::NoReport
    } else {
        match body_event(ascii_text(bytes.subrange(3, end)), bytes[end] == 0x6d) {
            Some(event) => MouseToken::Report(event, (end + 1) as nat),
            None => MouseToken::NoReport,
        }
    }
}

pub fn mouse_button_from_code(code: u16) -> (button: Option<MouseButton>)
    ensures
        button == button_of(code as nat),
{
    match code % 4 {
        0 => Some(MouseButton::Left),
        1 => Some(MouseButton::Middle),
        2 => Some(MouseButton::Right),
        _ => None,
    }
}

pub fn mouse_modifiers_from_code(code: u16) -> (modifiers: KeyModifiers)
    ensures
        modifiers == modifiers_of(code as nat),
{
    KeyModifiers {
        shift: (code / 4) % 2 == 1,
        alt: (code / 8) % 2 == 1,
        control: (code / 16) % 2 == 1,
    }
}

fn mouse_kind_from_code(code: u16, release: bool) -> (kind: Option<MouseEventKind>)
    ensures
        kind == kind_of(code as nat, release),
{
    if (code / 64) % 2 == 1 {
        match code % 4 {
            0 => Some(MouseEventKind::ScrollUp),
            1 => Some(MouseEventKind::ScrollDown),
            2 => Some(MouseEventKind::ScrollLeft),
            _ => Some(MouseEventKind::ScrollRight),
        }
    } else if release {
        match mouse_button_from_code(code) {
            Some(button) => Some(MouseEventKind::Up(button)),
            None => Some(MouseEventKind::Up(MouseButton::Left)),
        }
    } else if (code / 32) % 2 == 1 {
        match mouse_button_from_code(code) {
            Some(button) => Some(MouseEventKind::Drag(button)),
            None => Some(MouseEventKind::Moved),
        }
    } else {
        match mouse_button_from_code(code) {
            Some(button) => Some(MouseEventKind::Down(button)),
            None => None,
        }
    }
}

/// Whether input begins with the prefix of a mouse report.
pub fn starts_with_mouse_prefix(bytes: &[u8]) -> (yes: bool)
    ensures
        yes == mouse_prefix().is_prefix_of(bytes@),
{
    let yes = bytes.len() >= 3 && bytes[0] == 0x1b && bytes[1] == 0x5b && bytes[2] == 0x3c;
    proof {
        if yes {
            assert(mouse_prefix() =~= bytes@.subrange(0, 3));
        } else if mouse_prefix().is_prefix_of(bytes@) {
            assert(mouse_prefix() == bytes@.subrange(0, 3));
            assert(bytes@.subrange(0, 3)[0] == 0x1b);
            assert(bytes@.subrange(0, 3)[1] == 0x5b);
            assert(bytes@.subrange(0, 3)[2] == 0x3c);
        }
    }
    yes
}

fn mouse_event_from_body(body: &Vec<char>, release: bool) -> (event: Option<MouseEvent>)
    ensures
        event == body_event(body@, release),
{
    let parts = split_chars(body, ';');
    let ghost views = char_views_of(parts@);
    if parts.len() != 3 {
        return None;
    }
    assert(views[0] == parts@[0]@ && views[1] == parts@[1]@ && views[2] == parts@[2]@);
    let code = match parse_unsigned_chars(&parts[0], u16::MAX as u64) {
        Some(code) => code as u16,
        None => {
            return None;
        },
    };
    let column = match parse_unsigned_chars(&parts[1], u16::MAX as u64) {
        Some(column) => column as u16,
        None => {
            return None;
        },
    };
    let row = match parse_unsigned_chars(&parts[2], u16::MAX as u64) {
        Some(row) => row as u16,
        None => {
            return None;
        },
    };
    if column == 0 || row == 0 {
        return None;
    }
    match mouse_kind_from_code(code, release) {
        Some(kind) => Some(
            MouseEvent {
                kind,
                column: column - 1,
                row: row - 1,
                modifiers: mouse_modifiers_from_code(code),
            },
        ),
        None => None,
    }
}

/// Reads the mouse report that some input begins with.
pub fn parse_sgr_mouse_sequence(bytes: &[u8]) -> (parsed: ParsedSgrMouseSequence)
    ensures
        parsed@ == mouse_token(bytes@),
{
    if !starts_with_mouse_prefix(bytes) {
        return ParsedSgrMouseSequence::Invalid;
    }
    proof {
        assert(bytes@.len() >= 3);
    }
    let mut index: usize = 3;
    let mut body: Vec<char> = Vec::new();
    assert(body@ =~= ascii_text(bytes@.subrange(3, 3)));
    while index < bytes.len() && ((0x30 <= bytes[index] && bytes[index] <= 0x39) || bytes[index]
        == 0x3b)
        invariant
            3 <= index <= bytes@.len(),
            body_end(bytes@, 3) == body_end(bytes@, index as int),
            body@ == ascii_text(bytes@.subrange(3, index as int)),
        decreases bytes@.len() - index,
    {
        body.push(bytes[index] as char);
        proof {
            assert(bytes@.subrange(3, index + 1) =~= bytes@.subrange(3, index as int).push(
                bytes@[index as int],
            ));
            assert(body@ =~= ascii_text(bytes@.subrange(3, index + 1)));
        }
        index = index + 1;
    }
    if index == bytes.len() {
        return ParsedSgrMouseSequence::Incomplete;
    }
    let last: u8 = bytes[index];
    if last != 0x4d && last != 0x6d {
        return ParsedSgrMouseSequence::Invalid;
    }
    match mouse_event_from_body(&body, last == 0x6d) {
        Some(event) => ParsedSgrMouseSequence::Complete { event, consumed: index + 1 },
        None => ParsedSgrMouseSequence::Invalid,
    }
}

/// Whether the prefix of a mouse report stands at position `at`.
pub open spec fn prefix_at(bytes: Seq<u8>, at: int) -> bool {
    0 <= at <= bytes.len() - 3 && bytes.subrange(at, at + 3) == mouse_prefix()
}

/// How many bytes at the end may turn out to begin a mouse report: `ESC [ <` or `ESC [`. A lone
/// `ESC` is a key press and is not held back.
pub open spec fn held_back(bytes: Seq<u8>) -> nat {
    if mouse_prefix().is_suffix_of(bytes) {
        3
    } else if mouse_prefix().take(2).is_suffix_of(bytes) {
        2
    } else {
        0
    }
}

/// The number of bytes at the end of input that may begin a mouse report.
pub fn mouse_prefix_suffix_len(bytes: &[u8]) -> (len: usize)
    ensures
        len == held_back(bytes@),
        len <= bytes@.len(),
{
    let n: usize = bytes.len();
    proof {
        assert(mouse_prefix().take(2) =~= seq![0x1bu8, 0x5b]);
        if n >= 3 {
            let tail = bytes@.subrange(n - 3, n as int);
            assert(tail[0] == bytes@[n - 3] && tail[1] == bytes@[n - 2] && tail[2] == bytes@[n
                - 1]);
            assert(tail =~= mouse_prefix() <==> (bytes@[n - 3] == 0x1b && bytes@[n - 2] == 0x5b
                && bytes@[n - 1] == 0x3c)) by {
                if tail =~= mouse_prefix() {
                    assert(tail[0] == mouse_prefix()[0] && tail[1] == mouse_prefix()[1] && tail[2]
                        == mouse_prefix()[2]);
                }
            }
        }
        if n >= 2 {
            let tail = bytes@.subrange(n - 2, n as int);
            assert(tail[0] == bytes@[n - 2] && tail[1] == bytes@[n - 1]);
            assert(tail =~= seq![0x1bu8, 0x5b] <==> (bytes@[n - 2] == 0x1b && bytes@[n - 1]
                == 0x5b)) by {
                if tail =~= seq![0x1bu8, 0x5b] {
                    assert(tail[0] == seq![0x1bu8, 0x5b][0] && tail[1] == seq![0x1bu8, 0x5b][1]);
                }
            }
        }
    }
    if n >= 3 && bytes[n - 3] == 0x1b && bytes[n - 2] == 0x5b && bytes[n - 1] == 0x3c {
        3
    } else if n >= 2 && bytes[n - 2] == 0x1b && bytes[n - 1] == 0x5b {
        2
    } else {
        0
    }
}

/// The first position at which the prefix of a mouse report stands.
pub fn find_mouse_prefix(bytes: &[u8]) -> (found: Option<usize>)
    ensures
        match found {
            Some(at) => prefix_at(bytes@, at as int) && forall|earlier: int|
                earlier < at ==> !#[trigger] prefix_at(bytes@, earlier),
            None => forall|at: int| !#[trigger] prefix_at(bytes@, at),
        },
{
    let mut at: usize = 0;
    while at < bytes.len()
        invariant
            at <= bytes@.len(),
            forall|earlier: int| earlier < at ==> !#[trigger] prefix_at(bytes@, earlier),
        decreases bytes@.len() - at,
    {
        if bytes.len() - at < 3 {
            return None;
        }
        let here = bytes[at] == 0x1b && bytes[at + 1] == 0x5b && bytes[at + 2] == 0x3c;
        proof {
            let window = bytes@.subrange(at as int, at + 3);
            assert(window[0] == bytes@[at as int] && window[1] == bytes@[at + 1] && window[2]
                == bytes@[at + 2]);
            if window =~= mouse_prefix() {
                assert(window[0] == mouse_prefix()[0] && window[1] == mouse_prefix()[1]
                    && window[2] == mouse_prefix()[2]);
            }
            assert(here == prefix_at(bytes@, at as int)) by {
                if here {
                    assert(window =~= mouse_prefix());
                }
            }
        }
        if here {
            return Some(at);
        }
        at = at + 1;
    }
    None
}

pub open spec fn button_code(button: MouseButton) -> nat {
    match button {
        MouseButton::Left => 0,
        MouseButton::Middle => 1,
        MouseButton::Right => 2,
    }
}

pub open spec fn modifiers_code(modifiers: KeyModifiers) -> nat {
    (if modifiers.shift {
        4nat
    } else {
        0
    }) + (if modifiers.alt {
        8nat
    } else {
        0
    }) + (if modifiers.control {
        16nat
    } else {
        0
    })
}

/// The code of a kind of event, before the modifiers are added.
pub open spec fn kind_code(kind: MouseEventKind) -> nat {
    match kind {
        MouseEventKind::Down(button) => button_code(button),
        MouseEventKind::Up(_) => 3,
        MouseEventKind::Drag(button) => 32 + button_code(button),
        MouseEventKind::Moved => 35,
        MouseEventKind::ScrollUp => 64,
        MouseEventKind::ScrollDown => 65,
        MouseEventKind::ScrollLeft => 66,
        MouseEventKind::ScrollRight => 67,
    }
}

/// A coordinate counted from `origin`, moved into the `length` cells from there on.
pub open spec fn clamp_into(coordinate: u16, origin: u16, length: u16) -> nat {
    if coordinate <= origin || length == 0 {
        0
    } else if coordinate - origin >= length {
        (length - 1) as nat
    } else {
        (coordinate - origin) as nat
    }
}

/// A mouse report, with the column and the row counted from one.
pub open spec fn report_bytes(code: nat, column: nat, row: nat, release: bool) -> Seq<u8> {
    mouse_prefix() + ascii_bytes(
        numeral_of(code) + seq![';'] + numeral_of(column) + seq![';'] + numeral_of(row) + seq![
            if release {
                'm'
            } else {
                'M'
            },
        ],
    )
}

/// The report of an event as a program in `pane` is to see it: relative to the pane, and inside.
pub open spec fn pane_report(event: MouseEvent, pane: Rect) -> Seq<u8> {
    report_bytes(
        kind_code(event.kind) + modifiers_code(event.modifiers),
        clamp_into(event.column, pane.x, pane.width) + 1,
        clamp_into(event.row, pane.y, pane.height) + 1,
        event.kind is Up,
    )
}

pub fn tmux_mouse_button_code(button: MouseButton) -> (code: u16)
    ensures
        code == button_code(button),
{
    match button {
        MouseButton::Left => 0,
        MouseButton::Middle => 1,
        MouseButton::Right => 2,
    }
}

pub fn tmux_mouse_modifiers(modifiers: KeyModifiers) -> (code: u16)
    ensures
        code == modifiers_code(modifiers),
{
    let mut code: u16 = 0;
    if modifiers.shift {
        code = code + 4;
    }
    if modifiers.alt {
        code = code + 8;
    }
    if modifiers.control {
        code = code + 16;
    }
    code
}

fn push_numeral(bytes: &mut Vec<u8>, n: u16)
    ensures
        final(bytes)@ == old(bytes)@ + ascii_bytes(numeral_of(n as nat)),
{
    let text = numeral(n as u128);
    let digits = chars_of(text.as_str());
    let ghost before = bytes@;
    let mut i: usize = 0;
    while i < digits.len()
        invariant
            i <= digits.len(),
            bytes@ == before + ascii_bytes(digits@.take(i as int)),
        decreases digits.len() - i,
    {
        bytes.push(digits[i] as u8);
        proof {
            assert(digits@.take(i + 1) =~= digits@.take(i as int).push(digits@[i as int]));
            assert(bytes@ =~= before + ascii_bytes(digits@.take(i + 1)));
        }
        i = i + 1;
    }
    assert(digits@.take(i as int) =~= digits@);
}

fn clamp(coordinate: u16, origin: u16, length: u16) -> (at: u16)
    ensures
        at == clamp_into(coordinate, origin, length),
        at < u16::MAX,
{
    if coordinate <= origin || length == 0 {
        0
    } else if coordinate - origin >= length {
        length - 1
    } else {
        coordinate - origin
    }
}

/// Encodes an event for the program that runs in `pane`.
pub fn tmux_mouse_event_to_bytes(event: &MouseEvent, pane: Rect) -> (bytes: Vec<u8>)
    ensures
        bytes@ == pane_report(*event, pane),
{
    let column: u16 = clamp(event.column, pane.x, pane.width) + 1;
    let row: u16 = clamp(event.row, pane.y, pane.height) + 1;
    let kind: u16 = match event.kind {
        MouseEventKind::Down(button) => tmux_mouse_button_code(button),
        MouseEventKind::Up(_) => 3,
        MouseEventKind::Drag(button) => 32 + tmux_mouse_button_code(button),
        MouseEventKind::Moved => 35,
        MouseEventKind::ScrollUp => 64,
        MouseEventKind::ScrollDown => 65,
        MouseEventKind::ScrollLeft => 66,
        MouseEventKind::ScrollRight => 67,
    };
    let code: u16 = kind + tmux_mouse_modifiers(event.modifiers);
    let release = matches!(event.kind, MouseEventKind::Up(_));
    let mut bytes: Vec<u8> = Vec::new();
    bytes.push(0x1b);
    bytes.push(0x5b);
    bytes.push(0x3c);
    push_numeral(&mut bytes, code);
    bytes.push(0x3b);
    push_numeral(&mut bytes, column);
    bytes.push(0x3b);
    push_numeral(&mut bytes, row);
    bytes.push(
        if release {
            0x6d
        } else {
            0x4d
        },
    );
    assert(bytes@ =~= pane_report(*event, pane));
    bytes
}

proof fn lemma_body_end_found(bytes: Seq<u8>, from: int, end: int)
    requires
        0 <= from <= end < bytes.len(),
        forall|i: int| from <= i < end ==> is_body_byte(#[trigger] bytes[i]),
        !is_body_byte(bytes[end]),
    ensures
        body_end(bytes, from) == end,
    decreases end - from,
{
    if from < end {
        assert(is_body_byte(bytes[from]));
        lemma_body_end_found(bytes, from + 1, end);
    }
}

proof fn lemma_body_char(c: char)
    requires
        is_digit(c) || c == ';',
    ensures
        is_body_byte(c as u8),
        (c as u8) as char == c,
{
}

proof fn lemma_code_decodes(kind: MouseEventKind, modifiers: KeyModifiers)
    ensures
        kind_of(kind_code(kind) + modifiers_code(modifiers), kind is Up) == Some(
            if kind is Up {
                MouseEventKind::Up(MouseButton::Left)
            } else {
                kind
            },
        ),
        modifiers_of(kind_code(kind) + modifiers_code(modifiers)) == modifiers,
{
    let code = kind_code(kind) + modifiers_code(modifiers);
    let _ = (bit(code, 4), bit(code, 8), bit(code, 16), bit(code, 32), bit(code, 64));
}

/// The event that a program in `pane` sees when `event` is forwarded to it. A release does not
/// say which button it was.
pub open spec fn event_in_pane(event: MouseEvent, pane: Rect) -> MouseEvent {
    MouseEvent {
        kind: if event.kind is Up {
            MouseEventKind::Up(MouseButton::Left)
        } else {
            event.kind
        },
        column: clamp_into(event.column, pane.x, pane.width) as u16,
        row: clamp_into(event.row, pane.y, pane.height) as u16,
        modifiers: event.modifiers,
    }
}

/// Reading a report back gives its code, column and row.
pub proof fn lemma_report_is_read_back(code: nat, column: nat, row: nat, release: bool)
    requires
        code <= u16::MAX,
        1 <= column <= u16::MAX,
        1 <= row <= u16::MAX,
    ensures
        mouse_token(report_bytes(code, column, row, release)) == match kind_of(code, release) {
            Some(kind) => MouseToken::Report(
                MouseEvent {
                    kind,
                    column: (column - 1) as u16,
                    row: (row - 1) as u16,
                    modifiers: modifiers_of(code),
                },
                report_bytes(code, column, row, release).len(),
            ),
            None => MouseToken::NoReport,
        },
{
    let bytes = report_bytes(code, column, row, release);
    let (a, b, c) = (numeral_of(code), numeral_of(column), numeral_of(row));
    lemma_numeral_round_trip(code);
    lemma_numeral_round_trip(column);
    lemma_numeral_round_trip(row);
    let text = a + seq![';'] + b + seq![';'] + c;
    let end = bytes.len() - 1;
    assert(mouse_prefix() =~= bytes.subrange(0, 3));
    assert forall|k: int| 0 <= k < text.len() implies is_body_byte(text[k] as u8) && (
    #[trigger] text[k] as u8) as char == text[k] by {
        if k < a.len() {
            assert(text[k] == a[k]);
            assert(is_digit(a[k]));
        } else if k == a.len() {
            assert(text[k] == ';');
        } else if k < a.len() + 1 + b.len() {
            assert(text[k] == b[k - a.len() - 1]);
            assert(is_digit(b[k - a.len() - 1]));
        } else if k == a.len() + 1 + b.len() {
            assert(text[k] == ';');
        } else {
            assert(text[k] == c[k - a.len() - b.len() - 2]);
            assert(is_digit(c[k - a.len() - b.len() - 2]));
        }
        lemma_body_char(text[k]);
    }
    assert forall|i: int| 3 <= i < end implies is_body_byte(#[trigger] bytes[i]) by {
        assert(bytes[i] == text[i - 3] as u8);
    }
    lemma_body_end_found(bytes, 3, end);
    let body = ascii_text(bytes.subrange(3, end));
    assert forall|k: int| 0 <= k < text.len() implies body[k] == text[k] by {
        assert(body[k] == (text[k] as u8) as char);
    }
    assert(body =~= text);
    assert(!a.contains(';') && !b.contains(';') && !c.contains(';')) by {
        assert forall|k: int| 0 <= k < a.len() implies a[k] != ';' by {
            assert(is_digit(a[k]));
        }
        assert forall|k: int| 0 <= k < b.len() implies b[k] != ';' by {
            assert(is_digit(b[k]));
        }
        assert forall|k: int| 0 <= k < c.len() implies c[k] != ';' by {
            assert(is_digit(c[k]));
        }
    }
    lemma_split_of_piece(a, ';');
    lemma_split_append_piece(a, ';', b);
    lemma_split_append_piece(a.push(';') + b, ';', c);
    assert(text =~= (a.push(';') + b).push(';') + c);
    assert(split_on(text, ';') =~= seq![a, b, c]);
    lemma_unsigned_of_numeral(code, u16::MAX as nat);
    lemma_unsigned_of_numeral(column, u16::MAX as nat);
    lemma_unsigned_of_numeral(row, u16::MAX as nat);
}

/// What is forwarded to the program in a pane is a complete mouse report, and that program
/// reads from it the event, moved into the pane.
pub proof fn law_forwarded_event_is_read_back(event: MouseEvent, pane: Rect)
    ensures
        mouse_token(pane_report(event, pane)) == MouseToken::Report(
            event_in_pane(event, pane),
            pane_report(event, pane).len(),
        ),
{
    let code = kind_code(event.kind) + modifiers_code(event.modifiers);
    lemma_code_decodes(event.kind, event.modifiers);
    lemma_report_is_read_back(
        code,
        clamp_into(event.column, pane.x, pane.width) + 1,
        clamp_into(event.row, pane.y, pane.height) + 1,
        event.kind is Up,
    );
}

} // verus!
