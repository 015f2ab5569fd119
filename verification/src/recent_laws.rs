//! What holds of the event log as a whole.

use crate::json::{
    field_text, is_printable, lemma_json_text_is_printable, lemma_object_is_printable,
    JsonFieldView,
};
use crate::lines::{byte_lines, without_last};
use crate::panes::{lists_in_order, PaneKey, PaneView};
use crate::recent_activity::{
    all_events, apply, apply_all, apply_line, event_fields, event_line_of, event_of_line, log_bytes,
    logs_bytes, reads_as_written, recent_entries, replay, replay_lines, EventView,
};
use crate::text::{
    is_blank, is_white_space, lemma_char_code, lemma_split_append_piece, lemma_split_not_empty,
    lemma_split_of_piece, numeral_of, split_on, trim_of, trim_start_of,
};
use vstd::prelude::*;
use vstd::utf8::{
    decode_utf8, encode_scalar, encode_utf8, encode_utf8_decode_utf8, encode_utf8_valid_utf8,
    valid_utf8,
};

verus! {

impl EventView {
    /// The pane that an event is about.
    pub open spec fn key(self) -> PaneKey {
        match self {
            EventView::Notify { session_id, pane_id, .. } => (session_id, pane_id),
            EventView::Clear { session_id, pane_id } => (session_id, pane_id),
        }
    }
}

/// An event changes the entry of its own pane only.
pub proof fn law_event_touches_its_pane_only(
    entries: Map<PaneKey, PaneView>,
    event: EventView,
    key: PaneKey,
)
    requires
        key != event.key(),
    ensures
        apply(entries, event).contains_key(key) == entries.contains_key(key),
        entries.contains_key(key) ==> apply(entries, event)[key] == entries[key],
{
}

/// Of the events about one pane, the latest alone counts.
pub proof fn law_latest_event_wins(
    entries: Map<PaneKey, PaneView>,
    earlier: EventView,
    latest: EventView,
)
    requires
        earlier.key() == latest.key(),
    ensures
        apply(apply(entries, earlier), latest) == apply(entries, latest),
{
    assert(apply(apply(entries, earlier), latest) =~= apply(entries, latest));
}

/// After a `clear` event its pane has no entry.
pub proof fn law_clear_removes_the_entry(
    entries: Map<PaneKey, PaneView>,
    session_id: Seq<char>,
    pane_id: Seq<char>,
)
    ensures
        !apply(entries, EventView::Clear { session_id, pane_id }).contains_key(
            (session_id, pane_id),
        ),
{
}

/// After a `notify` event its pane has an entry, with its text and its time.
pub proof fn law_notify_sets_the_entry(
    entries: Map<PaneKey, PaneView>,
    session_id: Seq<char>,
    pane_id: Seq<char>,
    pane_display_text: Seq<char>,
    notify_time: u64,
)
    ensures
        ({
            let after = apply(
                entries,
                EventView::Notify { session_id, pane_id, pane_display_text, notify_time },
            );
            after.contains_key((session_id, pane_id)) && after[(session_id, pane_id)] == PaneView {
                session_id,
                pane_id,
                title: pane_display_text,
                observed_at: notify_time * 1_000_000,
            }
        }),
{
}

pub proof fn lemma_replay_in_pieces(
    entries: Map<PaneKey, PaneView>,
    a: Seq<Seq<u8>>,
    b: Seq<Seq<u8>>,
)
    ensures
        replay_lines(entries, a + b) == replay_lines(replay_lines(entries, a), b),
    decreases b.len(),
{
    if b.len() == 0 {
        assert(a + b =~= a);
    } else {
        assert((a + b).drop_last() =~= a + b.drop_last());
        lemma_replay_in_pieces(entries, a, b.drop_last());
    }
}

/// Whether a line of the log is no event: it is no UTF-8, is blank or holds something else.
pub open spec fn is_bad_line(line: Seq<u8>) -> bool {
    !valid_utf8(line) || is_blank(decode_utf8(line)) || event_of_line(decode_utf8(line)) is None
}

/// A line that is blank or no event is as good as not there, wherever in the log it stands.
pub proof fn law_bad_line_is_ignored(
    entries: Map<PaneKey, PaneView>,
    before: Seq<Seq<u8>>,
    line: Seq<u8>,
    after: Seq<Seq<u8>>,
)
    requires
        is_bad_line(line),
    ensures
        replay_lines(entries, before.push(line) + after) == replay_lines(entries, before + after),
{
    lemma_replay_in_pieces(entries, before.push(line), after);
    lemma_replay_in_pieces(entries, before, after);
    assert(before.push(line).drop_last() =~= before);
    assert(replay_lines(entries, before.push(line)) == apply_line(
        replay_lines(entries, before),
        line,
    ));
}

/// A line that was written for an event counts as that event, wherever in the log it stands and
/// whatever the other lines are, if it is read as written.
pub proof fn law_written_line_counts(
    entries: Map<PaneKey, PaneView>,
    before: Seq<Seq<u8>>,
    event: EventView,
    after: Seq<Seq<u8>>,
)
    requires
        reads_as_written(encode_utf8(event_line_of(event))),
    ensures
        replay_lines(entries, before.push(encode_utf8(event_line_of(event))) + after)
            == replay_lines(apply(replay_lines(entries, before), event), after),
{
    let line = encode_utf8(event_line_of(event));
    lemma_event_line_bytes(event);
    lemma_replay_in_pieces(entries, before.push(line), after);
    assert(before.push(line).drop_last() =~= before);
    assert(replay_lines(entries, before.push(line)) == apply_line(
        replay_lines(entries, before),
        line,
    ));
}

/// The events among lines of which each is an event or none.
pub open spec fn events_among(lines: Seq<Option<EventView>>) -> Seq<EventView>
    decreases lines.len(),
{
    if lines.len() == 0 {
        Seq::empty()
    } else {
        match lines.last() {
            Some(event) => events_among(lines.drop_last()).push(event),
            None => events_among(lines.drop_last()),
        }
    }
}

/// Lines of which some were written for events and the others are bad leave what the events
/// leave, if each line is read as written.
pub proof fn law_bad_lines_among_events_are_ignored(
    entries: Map<PaneKey, PaneView>,
    lines: Seq<Seq<u8>>,
    written: Seq<Option<EventView>>,
)
    requires
        lines.len() == written.len(),
        forall|i: int|
            0 <= i < lines.len() ==> reads_as_written(#[trigger] lines[i]) && match written[i] {
                Some(event) => lines[i] == encode_utf8(event_line_of(event)),
                None => is_bad_line(lines[i]),
            },
    ensures
        replay_lines(entries, lines) == apply_all(entries, events_among(written)),
    decreases lines.len(),
{
    if lines.len() > 0 {
        let n = lines.len() - 1;
        assert(forall|i: int| 0 <= i < n ==> #[trigger] lines.drop_last()[i] == lines[i]);
        law_bad_lines_among_events_are_ignored(entries, lines.drop_last(), written.drop_last());
        assert(reads_as_written(lines[n]));
        if let Some(event) = written[n] {
            lemma_event_line_bytes(event);
            let before = events_among(written.drop_last());
            assert(before.push(event).drop_last() =~= before);
        }
    }
}

/// What is listed as recent was observed at most two minutes ago, and not in the future; and all
/// that was is listed.
pub proof fn law_entries_expire(
    entries: Map<PaneKey, PaneView>,
    now: int,
    panes: Seq<PaneView>,
)
    requires
        lists_in_order(panes, recent_entries(entries, now)),
    ensures
        forall|i: int|
            0 <= i < panes.len() ==> (#[trigger] panes[i]).observed_at <= now
                <= panes[i].observed_at + 120_000_000_000,
        forall|key: PaneKey|
            #![trigger entries.contains_key(key)]
            entries.contains_key(key) && entries[key].observed_at <= now
                <= entries[key].observed_at + 120_000_000_000 ==> panes.contains(entries[key]),
{
    let recent = recent_entries(entries, now);
    assert forall|i: int| 0 <= i < panes.len() implies (#[trigger] panes[i]).observed_at <= now
        <= panes[i].observed_at + 120_000_000_000 by {
        assert(recent.contains_key(panes[i].key()));
    }
    assert forall|key: PaneKey|
        #![trigger entries.contains_key(key)]
        entries.contains_key(key) && entries[key].observed_at <= now <= entries[key].observed_at
            + 120_000_000_000 implies panes.contains(entries[key]) by {
        assert(recent.contains_key(key));
        let i = choose|i: int| 0 <= i < panes.len() && (#[trigger] panes[i]).key() == key;
        assert(panes[i] == recent[panes[i].key()]);
    }
}

pub proof fn lemma_numeral_is_printable(n: nat)
    ensures
        is_printable(numeral_of(n)),
    decreases n,
{
    if n >= 10 {
        lemma_numeral_is_printable(n / 10);
    }
}

/// An event takes one line of the log: it has no line breaks, and no other control characters.
pub proof fn law_event_takes_one_line(event: EventView)
    ensures
        is_printable(event_line_of(event)),
        !event_line_of(event).contains('\n'),
{
    let fields = event_fields(event);
    let members = fields.map_values(
        |field: (Seq<char>, JsonFieldView)| (field.0, field_text(field.1)),
    );
    assert forall|i: int| 0 <= i < members.len() implies is_printable(
        (#[trigger] members[i]).1,
    ) by {
        match fields[i].1 {
            JsonFieldView::Text(text) => {
                lemma_json_text_is_printable(text);
            },
            JsonFieldView::Number(Some(number)) => {
                lemma_numeral_is_printable(number as nat);
            },
            _ => {},
        }
    }
    lemma_object_is_printable(members);
}

proof fn lemma_scalar_bytes(c: char, i: int)
    requires
        c as int >= 0x20,
        0 <= i < encode_scalar(c as u32).len(),
    ensures
        encode_scalar(c as u32)[i] >= 0x20,
{
    let v = c as u32;
    lemma_char_code(c);
    assert(0x20 <= v <= 0x7f ==> (v & 0x7f) as u8 >= 0x20) by (bit_vector);
    assert(0xC0u8 | ((v >> 6) & 0x1F) as u8 >= 0x20) by (bit_vector);
    assert(0xE0u8 | ((v >> 12) & 0x0F) as u8 >= 0x20) by (bit_vector);
    assert(0xF0u8 | ((v >> 18) & 0x7) as u8 >= 0x20) by (bit_vector);
    assert(0x80u8 | (v & 0x3F) as u8 >= 0x20) by (bit_vector);
    assert(0x80u8 | ((v >> 6) & 0x3F) as u8 >= 0x20) by (bit_vector);
    assert(0x80u8 | ((v >> 12) & 0x3F) as u8 >= 0x20) by (bit_vector);
}

/// Text without control characters has none in its bytes either.
proof fn lemma_printable_bytes(s: Seq<char>)
    requires
        is_printable(s),
    ensures
        forall|i: int| 0 <= i < encode_utf8(s).len() ==> #[trigger] encode_utf8(s)[i] >= 0x20,
    decreases s.len(),
{
    if s.len() > 0 {
        let head = encode_scalar(s[0] as u32);
        let tail = encode_utf8(s.drop_first());
        assert(is_printable(s.drop_first())) by {
            assert forall|i: int| 0 <= i < s.drop_first().len() implies (
            #[trigger] s.drop_first()[i]) as int >= 0x20 by {
                assert(s.drop_first()[i] == s[i + 1]);
            }
        }
        lemma_printable_bytes(s.drop_first());
        assert forall|i: int| 0 <= i < encode_utf8(s).len() implies #[trigger] encode_utf8(s)[i]
            >= 0x20 by {
            if i < head.len() {
                lemma_scalar_bytes(s[0], i);
            } else {
                assert(encode_utf8(s)[i] == tail[i - head.len()]);
            }
        }
    }
}

/// A line that is added to a log whose last line is ended is one more line, and leaves the
/// others as they are.
pub proof fn law_added_line_is_the_last(log: Seq<u8>, line: Seq<u8>)
    requires
        log.len() > 0 ==> log.last() == 0x0a,
        !line.contains(0x0au8),
        line.len() > 0 ==> line.last() != 0x0d,
    ensures
        byte_lines(log + line.push(0x0au8)) == byte_lines(log).push(line),
{
    let strip = |piece: Seq<u8>| without_last(piece, 0x0du8);
    let after = log + line.push(0x0au8);
    assert(after.drop_last() =~= log + line);
    assert(after.last() == 0x0au8);
    let pieces = split_on(log + line, 0x0au8);
    lemma_split_not_empty(log, 0x0au8);
    assert(split_on(after, 0x0au8) == pieces.push(Seq::empty()));
    assert(split_on(after, 0x0au8).drop_last() =~= pieces);
    if log.len() == 0 {
        assert(log + line =~= line);
        lemma_split_of_piece(line, 0x0au8);
        assert(log =~= Seq::empty());
        assert(split_on(log, 0x0au8) =~= seq![Seq::<u8>::empty()]);
        assert(byte_lines(log) =~= Seq::empty());
        assert(pieces.map_values(strip) =~= seq![line]);
    } else {
        let head = log.drop_last();
        assert(head.push(0x0au8) =~= log);
        lemma_split_append_piece(head, 0x0au8, line);
        let before = split_on(head, 0x0au8);
        assert(split_on(log, 0x0au8) == before.push(Seq::empty()));
        assert(split_on(log, 0x0au8).drop_last() =~= before);
        assert(byte_lines(log) == before.map_values(strip));
        assert(pieces == before.push(line));
        assert(pieces.map_values(strip) =~= before.map_values(strip).push(strip(line)));
    }
    assert(byte_lines(after) =~= byte_lines(log).push(line));
}

pub proof fn lemma_event_line_bytes(event: EventView)
    ensures
        ({
            let line = encode_utf8(event_line_of(event));
            &&& line.len() > 0
            &&& !line.contains(0x0au8)
            &&& line.last() != 0x0d
            &&& valid_utf8(line)
            &&& decode_utf8(line) == event_line_of(event)
            &&& !is_blank(event_line_of(event))
        }),
{
    let text = event_line_of(event);
    let line = encode_utf8(text);
    law_event_takes_one_line(event);
    lemma_printable_bytes(text);
    encode_utf8_valid_utf8(text);
    encode_utf8_decode_utf8(text);
    assert(text[0] == '{');
    assert(!is_white_space(text[0]));
    assert(trim_start_of(text) == text);
    assert(text.last() == '}');
    assert(!is_white_space(text.last()));
    assert(trim_of(text) == text);
    if line.len() == 0 {
        assert(decode_utf8(line).len() == 0);
    }
}

/// The lines of a log of events are the lines of the events.
pub proof fn law_log_has_a_line_for_each_event(events: Seq<EventView>)
    ensures
        byte_lines(log_bytes(events)) == events.map_values(
            |event: EventView| encode_utf8(event_line_of(event)),
        ),
        events.len() > 0 ==> log_bytes(events).len() > 0 && log_bytes(events).last() == 0x0a,
    decreases events.len(),
{
    let line_of = |event: EventView| encode_utf8(event_line_of(event));
    if events.len() > 0 {
        law_log_has_a_line_for_each_event(events.drop_last());
        lemma_event_line_bytes(events.last());
        law_added_line_is_the_last(
            log_bytes(events.drop_last()),
            encode_utf8(event_line_of(events.last())),
        );
        assert(events.map_values(line_of) =~= events.drop_last().map_values(line_of).push(
            line_of(events.last()),
        ));
        assert(log_bytes(events).last() == 0x0a);
    } else {
        lemma_split_not_empty(log_bytes(events), 0x0au8);
        assert(split_on(Seq::<u8>::empty(), 0x0au8) =~= seq![Seq::<u8>::empty()]);
        assert(byte_lines(log_bytes(events)) =~= events.map_values(line_of));
    }
}

/// A log of events leaves what the events leave, if each of its lines is read as written.
pub proof fn law_log_of_events_is_replayed(
    entries: Map<PaneKey, PaneView>,
    events: Seq<EventView>,
)
    requires
        forall|i: int|
            0 <= i < events.len() ==> reads_as_written(
                encode_utf8(event_line_of(#[trigger] events[i])),
            ),
    ensures
        replay_lines(entries, byte_lines(log_bytes(events))) == apply_all(entries, events),
    decreases events.len(),
{
    law_log_has_a_line_for_each_event(events);
    let lines = byte_lines(log_bytes(events));
    if events.len() > 0 {
        let shorter = events.drop_last();
        assert forall|i: int| 0 <= i < shorter.len() implies reads_as_written(
            encode_utf8(event_line_of(#[trigger] shorter[i])),
        ) by {
            assert(shorter[i] == events[i]);
        }
        law_log_of_events_is_replayed(entries, shorter);
        law_log_has_a_line_for_each_event(shorter);
        assert(lines.drop_last() =~= byte_lines(log_bytes(shorter)));
        let last = events.last();
        assert(last == events[events.len() - 1]);
        lemma_event_line_bytes(last);
        assert(lines.last() == encode_utf8(event_line_of(last)));
    }
}

proof fn lemma_apply_all_in_pieces(
    entries: Map<PaneKey, PaneView>,
    a: Seq<EventView>,
    b: Seq<EventView>,
)
    ensures
        apply_all(entries, a + b) == apply_all(apply_all(entries, a), b),
    decreases b.len(),
{
    if b.len() == 0 {
        assert(a + b =~= a);
    } else {
        assert((a + b).drop_last() =~= a + b.drop_last());
        lemma_apply_all_in_pieces(entries, a, b.drop_last());
    }
}

/// Logs of events, one after the other, leave what all the events leave in this order, if each
/// line is read as written.
pub proof fn law_logs_of_events_are_replayed(logs: Seq<Seq<EventView>>)
    requires
        forall|i: int, j: int|
            0 <= i < logs.len() && 0 <= j < logs[i].len() ==> reads_as_written(
                encode_utf8(event_line_of(#[trigger] logs[i][j])),
            ),
    ensures
        replay(logs_bytes(logs)) == apply_all(Map::empty(), all_events(logs)),
    decreases logs.len(),
{
    let files = logs_bytes(logs);
    if logs.len() > 0 {
        let shorter = logs.drop_last();
        assert forall|i: int, j: int|
            0 <= i < shorter.len() && 0 <= j < shorter[i].len() implies reads_as_written(
            encode_utf8(event_line_of(#[trigger] shorter[i][j])),
        ) by {
            assert(shorter[i][j] == logs[i][j]);
        }
        law_logs_of_events_are_replayed(shorter);
        assert(files.drop_last() =~= logs_bytes(shorter));
        let last = logs.last();
        assert forall|j: int| 0 <= j < last.len() implies reads_as_written(
            encode_utf8(event_line_of(#[trigger] last[j])),
        ) by {
            assert(last[j] == logs[logs.len() - 1][j]);
        }
        law_log_of_events_is_replayed(replay(files.drop_last()), last);
        lemma_apply_all_in_pieces(Map::empty(), all_events(shorter), last);
    }
}

} // verus!
