//! What the calls that deal with the event log give, in terms of what they are given.
//!
//! A call is written as `call_ensures(function, arguments, result)`: the function, called with the
//! arguments, may return the result.

use crate::lines::byte_lines;
use crate::panes::{pane_views, RecentPane, Timestamp};
use crate::payload_laws::{
    law_blank_text_in_a_clear_payload_is_refused, law_blank_text_in_a_notify_payload_is_refused,
    law_clear_event_says_what_its_payload_says, law_notify_event_says_what_its_payload_says,
};
use crate::recent_activity::{
    clear_event_from_payload, clear_event_of, event_line, event_line_of, files_of,
    load_recent_panes, notify_event_from_payload, notify_event_of, reads_as_written,
    recent_pane_event_from_line, replay, run_clear, run_notify, ClearEvent, ClearPayload, EventView,
    LogRead, NotifyEvent, NotifyPayload, RecentActivityError, RecentPaneEvent,
};
use crate::recent_laws::{law_added_line_is_the_last, law_entries_expire, lemma_event_line_bytes};
use crate::replay_laws::{
    bytes_read, is_about, law_every_file_is_replayed, law_notified_pane_is_listed,
    law_panes_are_listed_latest_first, law_unreadable_file_is_an_error,
};
use crate::text_laws::{all_white, is_trimmed};
use vstd::prelude::*;
use vstd::utf8::encode_utf8;

verus! {

/// Whether a list has a pane with the given ids.
pub open spec fn has_pane(
    panes: Seq<RecentPane>,
    session_id: Seq<char>,
    pane_id: Seq<char>,
) -> bool {
    exists|i: int|
        0 <= i < panes.len() && (#[trigger] panes[i]).session_id@ == session_id && panes[i].pane_id@
            == pane_id
}

/// Whether a list has a pane with the given ids, title and time.
pub open spec fn has_pane_with(
    panes: Seq<RecentPane>,
    session_id: Seq<char>,
    pane_id: Seq<char>,
    title: Seq<char>,
    nanos: int,
) -> bool {
    exists|i: int|
        0 <= i < panes.len() && (#[trigger] panes[i]).session_id@ == session_id && panes[i].pane_id@
            == pane_id && panes[i].title@ == title && panes[i].observed_at.nanos == nanos
}

/// Whether a time in milliseconds is at most two minutes before a moment, and not after it.
pub open spec fn is_fresh(millis: u64, now: Timestamp) -> bool {
    millis * 1_000_000 <= now.nanos <= millis * 1_000_000 + 120_000_000_000
}

/// A pane is loaded from the log if and only if the last event about it, in whichever of the
/// files, is a `notify` event that is fresh; it has the text and the time of that event.
pub proof fn law_load_gives_the_notified_panes(
    reads: Vec<LogRead>,
    now: Timestamp,
    loaded: Result<Vec<RecentPane>, RecentActivityError>,
    f: int,
    k: int,
    event: EventView,
)
    requires
        call_ensures(load_recent_panes, (reads, now), loaded),
        forall|i: int| 0 <= i < reads@.len() ==> (#[trigger] reads@[i]).outcome is Contents,
        0 <= f < reads@.len(),
        0 <= k < byte_lines(bytes_read(reads@[f])).len(),
        byte_lines(bytes_read(reads@[f]))[k] == encode_utf8(event_line_of(event)),
        forall|j: int|
            k < j < byte_lines(bytes_read(reads@[f])).len() ==> !is_about(
                #[trigger] byte_lines(bytes_read(reads@[f]))[j],
                event.key(),
            ),
        forall|g: int, j: int|
            f < g < reads@.len() && 0 <= j < byte_lines(bytes_read(reads@[g])).len() ==> !is_about(
                #[trigger] byte_lines(bytes_read(reads@[g]))[j],
                event.key(),
            ),
    ensures
        loaded matches Ok(panes) && match event {
            EventView::Notify { session_id, pane_id, pane_display_text, notify_time } => {
                if is_fresh(notify_time, now) {
                    has_pane_with(
                        panes@,
                        session_id,
                        pane_id,
                        pane_display_text,
                        notify_time * 1_000_000,
                    )
                } else {
                    !has_pane(panes@, session_id, pane_id)
                }
            },
            EventView::Clear { session_id, pane_id } => !has_pane(panes@, session_id, pane_id),
        },
{
    law_every_file_is_replayed(reads@);
    let files = files_of(reads@)->Ok_0;
    let panes = loaded->Ok_0;
    let views = pane_views(panes@);
    assert(files[f] == bytes_read(reads@[f]));
    assert(reads_as_written(byte_lines(files[f])[k]));
    assert forall|g: int, j: int|
        f < g < files.len() && 0 <= j < byte_lines(files[g]).len() implies !is_about(
        #[trigger] byte_lines(files[g])[j],
        event.key(),
    ) by {
        assert(files[g] == bytes_read(reads@[g]));
    }
    law_notified_pane_is_listed(files, f, k, event, now.nanos as int, views);
    match event {
        EventView::Notify { session_id, pane_id, pane_display_text, notify_time } => {
            if is_fresh(notify_time, now) {
                let wanted = crate::panes::PaneView {
                    session_id,
                    pane_id,
                    title: pane_display_text,
                    observed_at: notify_time * 1_000_000,
                };
                let i = choose|i: int| 0 <= i < views.len() && views[i] == wanted;
                assert(views[i] == panes@[i]@);
                assert(panes@[i].session_id@ == session_id);
            } else {
                lemma_no_pane(panes@, session_id, pane_id);
            }
        },
        EventView::Clear { session_id, pane_id } => {
            lemma_no_pane(panes@, session_id, pane_id);
        },
    }
}

proof fn lemma_no_pane(panes: Seq<RecentPane>, session_id: Seq<char>, pane_id: Seq<char>)
    requires
        forall|i: int|
            0 <= i < pane_views(panes).len() ==> (#[trigger] pane_views(panes)[i]).session_id
                != session_id || pane_views(panes)[i].pane_id != pane_id,
    ensures
        !has_pane(panes, session_id, pane_id),
{
    assert forall|i: int| 0 <= i < panes.len() implies (#[trigger] panes[i]).session_id@
        != session_id || panes[i].pane_id@ != pane_id by {
        assert(pane_views(panes)[i] == panes[i]@);
    }
}

/// What was loaded is fresh, has each pane once, and is in order: the latest first.
pub proof fn law_load_gives_panes_in_order(
    reads: Vec<LogRead>,
    now: Timestamp,
    loaded: Result<Vec<RecentPane>, RecentActivityError>,
    i: int,
    j: int,
)
    requires
        call_ensures(load_recent_panes, (reads, now), loaded),
        loaded is Ok,
        0 <= i < j < loaded->Ok_0@.len(),
    ensures
        ({
            let a = loaded->Ok_0@[i];
            let b = loaded->Ok_0@[j];
            &&& a.session_id@ != b.session_id@ || a.pane_id@ != b.pane_id@
            &&& a.observed_at.nanos >= b.observed_at.nanos
            &&& a.observed_at.nanos <= now.nanos <= a.observed_at.nanos + 120_000_000_000
            &&& b.observed_at.nanos <= now.nanos <= b.observed_at.nanos + 120_000_000_000
        }),
{
    let files = files_of(reads@)->Ok_0;
    let views = pane_views(loaded->Ok_0@);
    law_panes_are_listed_latest_first(replay(files), now.nanos as int, views, i, j);
    law_entries_expire(replay(files), now.nanos as int, views);
    assert(views[i] == loaded->Ok_0@[i]@ && views[j] == loaded->Ok_0@[j]@);
    assert(views[i].observed_at <= now.nanos && views[j].observed_at <= now.nanos);
}

/// A file that could not be opened fails the load, and is named; the first such file is.
pub proof fn law_load_fails_with_the_first_unreadable_file(
    reads: Vec<LogRead>,
    now: Timestamp,
    loaded: Result<Vec<RecentPane>, RecentActivityError>,
    at: int,
)
    requires
        call_ensures(load_recent_panes, (reads, now), loaded),
        0 <= at < reads@.len(),
        reads@[at].outcome is Failed,
        forall|i: int| 0 <= i < at ==> !((#[trigger] reads@[i]).outcome is Failed),
    ensures
        loaded matches Err(RecentActivityError::EventLogWrite(words)) && words@
            == "failed to open "@ + reads@[at].path@ + ": "@ + reads@[at].outcome->Failed_0@,
{
    let before = reads@.take(at);
    let after = reads@.skip(at + 1);
    assert(before.push(reads@[at]) + after =~= reads@);
    law_unreadable_file_is_an_error(before, reads@[at], after);
}

/// What `vmux notify` adds to a log is in the sidebar's list for two minutes from the payload's
/// time on, with the payload's texts, whatever else is in the log and in the files before it.
pub proof fn law_notified_pane_is_loaded(
    payload_path: &str,
    payload: NotifyPayload,
    line: Result<String, RecentActivityError>,
    log: Seq<u8>,
    reads: Vec<LogRead>,
    now: Timestamp,
    loaded: Result<Vec<RecentPane>, RecentActivityError>,
)
    requires
        payload_path@.len() > 0,
        !all_white(payload.session_id@),
        !all_white(payload.pane_id@),
        !all_white(payload.pane_display_text@),
        call_ensures(run_notify, (payload_path, Ok(payload)), line),
        log.len() > 0 ==> log.last() == 0x0a,
        reads@.len() > 0,
        forall|i: int| 0 <= i < reads@.len() ==> (#[trigger] reads@[i]).outcome is Contents,
        line matches Ok(line) ==> bytes_read(reads@.last()) == log + encode_utf8(line@).push(
            0x0au8,
        ),
        call_ensures(load_recent_panes, (reads, now), loaded),
    ensures
        line is Ok,
        loaded matches Ok(panes) && exists|session_id: Seq<char>, pane_id: Seq<char>|
            #![trigger has_pane(panes@, session_id, pane_id)]
            {
                &&& is_trimmed(session_id, payload.session_id@)
                &&& is_trimmed(pane_id, payload.pane_id@)
                &&& has_pane(panes@, session_id, pane_id) == is_fresh(payload.notify_time, now)
                &&& forall|i: int|
                    0 <= i < panes@.len() && (#[trigger] panes@[i]).session_id@ == session_id
                        && panes@[i].pane_id@ == pane_id ==> is_trimmed(
                        panes@[i].title@,
                        payload.pane_display_text@,
                    ) && panes@[i].observed_at.nanos == payload.notify_time * 1_000_000
            },
{
    law_notify_event_says_what_its_payload_says(payload);
    let event = notify_event_of(payload)->Ok_0;
    let bytes = encode_utf8(event_line_of(event));
    lemma_event_line_bytes(event);
    law_added_line_is_the_last(log, bytes);
    let f = reads@.len() - 1;
    let lines = byte_lines(bytes_read(reads@[f]));
    assert(lines == byte_lines(log).push(bytes));
    law_load_gives_the_notified_panes(reads, now, loaded, f, lines.len() - 1, event);
    let panes = loaded->Ok_0;
    match event {
        EventView::Notify { session_id, pane_id, pane_display_text, notify_time } => {
            if is_fresh(notify_time, now) {
                let at = choose|i: int|
                    0 <= i < panes@.len() && (#[trigger] panes@[i]).session_id@ == session_id
                        && panes@[i].pane_id@ == pane_id && panes@[i].title@ == pane_display_text
                        && panes@[i].observed_at.nanos == notify_time * 1_000_000;
                assert(has_pane(panes@, session_id, pane_id));
                assert forall|i: int|
                    0 <= i < panes@.len() && (#[trigger] panes@[i]).session_id@ == session_id
                        && panes@[i].pane_id@ == pane_id implies i == at by {
                    if i < at {
                        law_load_gives_panes_in_order(reads, now, loaded, i, at);
                    } else if at < i {
                        law_load_gives_panes_in_order(reads, now, loaded, at, i);
                    }
                }
            }
            assert(has_pane(panes@, session_id, pane_id) == is_fresh(payload.notify_time, now));
        },
        EventView::Clear { .. } => {},
    }
}

/// What `vmux clear` adds to a log takes its pane off the list, whatever else is in the log and
/// in the files before it.
pub proof fn law_cleared_pane_is_not_loaded(
    payload_path: &str,
    payload: ClearPayload,
    line: Result<String, RecentActivityError>,
    log: Seq<u8>,
    reads: Vec<LogRead>,
    now: Timestamp,
    loaded: Result<Vec<RecentPane>, RecentActivityError>,
)
    requires
        payload_path@.len() > 0,
        !all_white(payload.session_id@),
        !all_white(payload.pane_id@),
        call_ensures(run_clear, (payload_path, Ok(payload)), line),
        log.len() > 0 ==> log.last() == 0x0a,
        reads@.len() > 0,
        forall|i: int| 0 <= i < reads@.len() ==> (#[trigger] reads@[i]).outcome is Contents,
        line matches Ok(line) ==> bytes_read(reads@.last()) == log + encode_utf8(line@).push(
            0x0au8,
        ),
        call_ensures(load_recent_panes, (reads, now), loaded),
    ensures
        line is Ok,
        loaded matches Ok(panes) && exists|session_id: Seq<char>, pane_id: Seq<char>|
            #![trigger has_pane(panes@, session_id, pane_id)]
            {
                &&& is_trimmed(session_id, payload.session_id@)
                &&& is_trimmed(pane_id, payload.pane_id@)
                &&& !has_pane(panes@, session_id, pane_id)
            },
{
    law_clear_event_says_what_its_payload_says(payload);
    let event = clear_event_of(payload)->Ok_0;
    let bytes = encode_utf8(event_line_of(event));
    lemma_event_line_bytes(event);
    law_added_line_is_the_last(log, bytes);
    let f = reads@.len() - 1;
    let lines = byte_lines(bytes_read(reads@[f]));
    assert(lines == byte_lines(log).push(bytes));
    law_load_gives_the_notified_panes(reads, now, loaded, f, lines.len() - 1, event);
    match event {
        EventView::Clear { session_id, pane_id } => {
            assert(!has_pane(loaded->Ok_0@, session_id, pane_id));
        },
        EventView::Notify { .. } => {},
    }
}

/// A payload makes an event with its own texts, trimmed, and its own time, or none if a text is
/// blank.
pub proof fn law_payload_makes_its_event(
    payload: &NotifyPayload,
    event: Result<NotifyEvent, RecentActivityError>,
)
    requires
        call_ensures(notify_event_from_payload, (payload,), event),
    ensures
        event is Ok == (!all_white(payload.session_id@) && !all_white(payload.pane_id@)
            && !all_white(payload.pane_display_text@)),
        event matches Ok(event) ==> is_trimmed(event.session_id@, payload.session_id@)
            && is_trimmed(event.pane_id@, payload.pane_id@) && is_trimmed(
            event.pane_display_text@,
            payload.pane_display_text@,
        ) && event.notify_time == payload.notify_time,
{
    if !all_white(payload.session_id@) && !all_white(payload.pane_id@) && !all_white(
        payload.pane_display_text@,
    ) {
        law_notify_event_says_what_its_payload_says(*payload);
    } else {
        law_blank_text_in_a_notify_payload_is_refused(*payload);
    }
}

/// A payload makes an event with its own texts, trimmed, or none if a text is blank.
pub proof fn law_clear_payload_makes_its_event(
    payload: &ClearPayload,
    event: Result<ClearEvent, RecentActivityError>,
)
    requires
        call_ensures(clear_event_from_payload, (payload,), event),
    ensures
        event is Ok == (!all_white(payload.session_id@) && !all_white(payload.pane_id@)),
        event matches Ok(event) ==> is_trimmed(event.session_id@, payload.session_id@)
            && is_trimmed(event.pane_id@, payload.pane_id@),
{
    if !all_white(payload.session_id@) && !all_white(payload.pane_id@) {
        law_clear_event_says_what_its_payload_says(*payload);
    } else {
        law_blank_text_in_a_clear_payload_is_refused(*payload);
    }
}

/// An event that is written as a line is read from that line again.
pub proof fn law_written_event_is_read_again(
    event: &RecentPaneEvent,
    line: String,
    text: &str,
    read: Option<RecentPaneEvent>,
)
    requires
        call_ensures(event_line, (event,), line),
        text@ == line@,
        call_ensures(recent_pane_event_from_line, (text,), read),
    ensures
        read matches Some(read) && match (*event, read) {
            (RecentPaneEvent::Notify(a), RecentPaneEvent::Notify(b)) => a.session_id@
                == b.session_id@ && a.pane_id@ == b.pane_id@ && a.pane_display_text@
                == b.pane_display_text@ && a.notify_time == b.notify_time,
            (RecentPaneEvent::Clear(a), RecentPaneEvent::Clear(b)) => a.session_id@ == b.session_id@
                && a.pane_id@ == b.pane_id@,
            _ => false,
        },
{
    assert(text@ == event_line_of(event@));
}

} // verus!
