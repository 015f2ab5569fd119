//! What holds of the panes that are read back from the files of the event log.

use crate::lines::byte_lines;
use crate::panes::{lists_in_order, PaneKey, PaneView};
use crate::recent_activity::{
    apply_line, event_line_of, event_of_line, files_of, reads_as_written, recent_entries, replay,
    replay_lines, ActivityErrorView, EventView, LogRead, ReadOutcome,
};
use crate::recent_laws::{is_bad_line, lemma_event_line_bytes};
use crate::text::text_le;
use vstd::prelude::*;
use vstd::utf8::{decode_utf8, encode_utf8};

verus! {

/// The bytes that were read from a file.
pub open spec fn bytes_read(read: LogRead) -> Seq<u8> {
    match read.outcome {
        ReadOutcome::Contents(bytes) => bytes@,
        _ => Seq::empty(),
    }
}

/// Where every file could be read, all of them are replayed, each whole and in the order in which
/// they were read.
pub proof fn law_every_file_is_replayed(reads: Seq<LogRead>)
    requires
        forall|i: int| 0 <= i < reads.len() ==> (#[trigger] reads[i]).outcome is Contents,
    ensures
        files_of(reads) matches Ok(files) && files.len() == reads.len() && forall|i: int|
            0 <= i < reads.len() ==> #[trigger] files[i] == bytes_read(reads[i]),
    decreases reads.len(),
{
    if reads.len() > 0 {
        let shorter = reads.drop_last();
        assert forall|i: int| 0 <= i < shorter.len() implies (
        #[trigger] shorter[i]).outcome is Contents by {
            assert(shorter[i] == reads[i]);
        }
        law_every_file_is_replayed(shorter);
        let before = files_of(shorter)->Ok_0;
        let files = files_of(reads)->Ok_0;
        assert(reads[reads.len() - 1].outcome is Contents);
        assert forall|i: int| 0 <= i < reads.len() implies #[trigger] files[i] == bytes_read(
            reads[i],
        ) by {
            if i < shorter.len() {
                assert(files[i] == before[i]);
                assert(shorter[i] == reads[i]);
            }
        }
    }
}

/// A file that is read adds its bytes after those of the files before it, and takes none of
/// theirs away.
pub proof fn law_file_adds_to_the_earlier_ones(reads: Seq<LogRead>, read: LogRead)
    requires
        files_of(reads) is Ok,
        read.outcome is Contents,
    ensures
        files_of(reads.push(read)) matches Ok(files) && files.len() == files_of(reads)->Ok_0.len()
            + 1 && files.drop_last() == files_of(reads)->Ok_0 && files.last() == bytes_read(read),
{
    assert(reads.push(read).drop_last() =~= reads);
    assert(files_of(reads)->Ok_0.push(bytes_read(read)).drop_last() =~= files_of(reads)->Ok_0);
}

/// A file that is gone by the time it is read is as good as not there.
pub proof fn law_missing_file_is_passed_over(
    before: Seq<LogRead>,
    read: LogRead,
    after: Seq<LogRead>,
)
    requires
        read.outcome is Missing,
    ensures
        files_of(before.push(read) + after) == files_of(before + after),
    decreases after.len(),
{
    let with = before.push(read) + after;
    if after.len() == 0 {
        assert(with =~= before.push(read));
        assert(with.drop_last() =~= before);
        assert(before + after =~= before);
    } else {
        assert(with.drop_last() =~= before.push(read) + after.drop_last());
        assert((before + after).drop_last() =~= before + after.drop_last());
        law_missing_file_is_passed_over(before, read, after.drop_last());
    }
}

/// The first file that could not be opened makes the whole read fail, with its path and what the
/// system says of it.
pub proof fn law_unreadable_file_is_an_error(
    before: Seq<LogRead>,
    read: LogRead,
    after: Seq<LogRead>,
)
    requires
        forall|i: int| 0 <= i < before.len() ==> !((#[trigger] before[i]).outcome is Failed),
        read.outcome is Failed,
    ensures
        files_of(before.push(read) + after) == Err::<Seq<Seq<u8>>, ActivityErrorView>(
            ActivityErrorView::EventLogWrite(
                "failed to open "@ + read.path@ + ": "@ + read.outcome->Failed_0@,
            ),
        ),
    decreases after.len(),
{
    let with = before.push(read) + after;
    if after.len() == 0 {
        assert(with =~= before.push(read));
        assert(with.drop_last() =~= before);
        lemma_readable_files(before);
    } else {
        assert(with.drop_last() =~= before.push(read) + after.drop_last());
        law_unreadable_file_is_an_error(before, read, after.drop_last());
    }
}

proof fn lemma_readable_files(reads: Seq<LogRead>)
    requires
        forall|i: int| 0 <= i < reads.len() ==> !((#[trigger] reads[i]).outcome is Failed),
    ensures
        files_of(reads) is Ok,
    decreases reads.len(),
{
    if reads.len() > 0 {
        let shorter = reads.drop_last();
        assert forall|i: int| 0 <= i < shorter.len() implies !((
        #[trigger] shorter[i]).outcome is Failed) by {
            assert(shorter[i] == reads[i]);
        }
        lemma_readable_files(shorter);
        assert(!(reads[reads.len() - 1].outcome is Failed));
    }
}

/// Whether a line of the log is an event about a pane.
pub open spec fn is_about(line: Seq<u8>, key: PaneKey) -> bool {
    !is_bad_line(line) && event_of_line(decode_utf8(line))->0.key() == key
}

/// The entry of a pane, if it has one.
pub open spec fn entry_of(entries: Map<PaneKey, PaneView>, key: PaneKey) -> Option<PaneView> {
    if entries.contains_key(key) {
        Some(entries[key])
    } else {
        None
    }
}

/// The entry that an event leaves its pane with, if any.
pub open spec fn left_by(event: EventView) -> Option<PaneView> {
    match event {
        EventView::Notify { session_id, pane_id, pane_display_text, notify_time } => Some(
            PaneView {
                session_id,
                pane_id,
                title: pane_display_text,
                observed_at: notify_time * 1_000_000,
            },
        ),
        EventView::Clear { .. } => None,
    }
}

/// Lines that are not about a pane leave its entry as it is.
proof fn lemma_other_lines(
    entries: Map<PaneKey, PaneView>,
    lines: Seq<Seq<u8>>,
    from: int,
    key: PaneKey,
)
    requires
        0 <= from <= lines.len(),
        forall|k: int| from <= k < lines.len() ==> !is_about(#[trigger] lines[k], key),
    ensures
        entry_of(replay_lines(entries, lines), key) == entry_of(
            replay_lines(entries, lines.take(from)),
            key,
        ),
    decreases lines.len(),
{
    if from == lines.len() {
        assert(lines.take(from) =~= lines);
    } else {
        let shorter = lines.drop_last();
        assert forall|k: int| from <= k < shorter.len() implies !is_about(
            #[trigger] shorter[k],
            key,
        ) by {
            assert(shorter[k] == lines[k]);
        }
        lemma_other_lines(entries, shorter, from, key);
        assert(shorter.take(from) =~= lines.take(from));
        assert(!is_about(lines[lines.len() - 1], key));
    }
}

/// What the files before leave of a pane stays, if no later line is about it: nothing in a
/// rotated segment is forgotten when the next file is read.
pub proof fn law_later_files_keep_what_they_do_not_name(
    files: Seq<Seq<u8>>,
    more: Seq<Seq<u8>>,
    key: PaneKey,
)
    requires
        forall|f: int, k: int|
            0 <= f < more.len() && 0 <= k < byte_lines(more[f]).len() ==> !is_about(
                #[trigger] byte_lines(more[f])[k],
                key,
            ),
    ensures
        entry_of(replay(files + more), key) == entry_of(replay(files), key),
    decreases more.len(),
{
    let all = files + more;
    if more.len() == 0 {
        assert(all =~= files);
    } else {
        let shorter = more.drop_last();
        assert(all.drop_last() =~= files + shorter);
        assert forall|f: int, k: int|
            0 <= f < shorter.len() && 0 <= k < byte_lines(shorter[f]).len() implies !is_about(
            #[trigger] byte_lines(shorter[f])[k],
            key,
        ) by {
            assert(byte_lines(more[f])[k] == byte_lines(shorter[f])[k]);
        }
        law_later_files_keep_what_they_do_not_name(files, shorter, key);
        let lines = byte_lines(more.last());
        assert forall|k: int| 0 <= k < lines.len() implies !is_about(#[trigger] lines[k], key) by {
            assert(byte_lines(more[more.len() - 1])[k] == lines[k]);
        }
        lemma_other_lines(replay(files + shorter), lines, 0, key);
        assert(lines.take(0) =~= Seq::empty());
    }
}

/// A pane that no line of the log is about has no entry.
pub proof fn law_pane_that_is_not_named_has_no_entry(files: Seq<Seq<u8>>, key: PaneKey)
    requires
        forall|f: int, k: int|
            0 <= f < files.len() && 0 <= k < byte_lines(files[f]).len() ==> !is_about(
                #[trigger] byte_lines(files[f])[k],
                key,
            ),
    ensures
        !replay(files).contains_key(key),
{
    law_later_files_keep_what_they_do_not_name(Seq::empty(), files, key);
    assert(Seq::<Seq<u8>>::empty() + files =~= files);
}

/// The last event about a pane decides on its entry, whatever came before it in this or an
/// earlier file: a `notify` event leaves its text and its time, and a `clear` event nothing.
pub proof fn law_last_event_about_a_pane_decides(
    files: Seq<Seq<u8>>,
    f: int,
    k: int,
    event: EventView,
)
    requires
        0 <= f < files.len(),
        0 <= k < byte_lines(files[f]).len(),
        !is_bad_line(byte_lines(files[f])[k]),
        event_of_line(decode_utf8(byte_lines(files[f])[k])) == Some(event),
        forall|j: int|
            k < j < byte_lines(files[f]).len() ==> !is_about(
                #[trigger] byte_lines(files[f])[j],
                event.key(),
            ),
        forall|g: int, j: int|
            f < g < files.len() && 0 <= j < byte_lines(files[g]).len() ==> !is_about(
                #[trigger] byte_lines(files[g])[j],
                event.key(),
            ),
    ensures
        entry_of(replay(files), event.key()) == left_by(event),
{
    let key = event.key();
    let first = files.take(f + 1);
    let more = files.skip(f + 1);
    assert(first + more =~= files);
    assert forall|g: int, j: int|
        0 <= g < more.len() && 0 <= j < byte_lines(more[g]).len() implies !is_about(
        #[trigger] byte_lines(more[g])[j],
        key,
    ) by {
        assert(byte_lines(files[f + 1 + g])[j] == byte_lines(more[g])[j]);
    }
    law_later_files_keep_what_they_do_not_name(first, more, key);
    let lines = byte_lines(files[f]);
    let start = replay(first.drop_last());
    assert(first.last() == files[f]);
    assert(replay(first) == replay_lines(start, lines));
    lemma_other_lines(start, lines, k + 1, key);
    let upto = lines.take(k + 1);
    assert(upto.last() == lines[k]);
    assert(replay_lines(start, upto) == apply_line(
        replay_lines(start, upto.drop_last()),
        lines[k],
    ));
}

/// What is listed of a log is what its entries hold, each pane once, the latest first; of the
/// same time by title, and then by pane id.
pub proof fn law_panes_are_listed_latest_first(
    entries: Map<PaneKey, PaneView>,
    now: int,
    panes: Seq<PaneView>,
    i: int,
    j: int,
)
    requires
        lists_in_order(panes, recent_entries(entries, now)),
        0 <= i < j < panes.len(),
    ensures
        entries.contains_key((panes[i].session_id, panes[i].pane_id)),
        entries[(panes[i].session_id, panes[i].pane_id)] == panes[i],
        entries.contains_key((panes[j].session_id, panes[j].pane_id)),
        entries[(panes[j].session_id, panes[j].pane_id)] == panes[j],
        panes[i].session_id != panes[j].session_id || panes[i].pane_id != panes[j].pane_id,
        panes[i].observed_at >= panes[j].observed_at,
        panes[i].observed_at == panes[j].observed_at ==> text_le(panes[i].title, panes[j].title)
            || panes[i].title == panes[j].title,
        panes[i].observed_at == panes[j].observed_at && panes[i].title == panes[j].title
            ==> text_le(panes[i].pane_id, panes[j].pane_id),
{
    assert(recent_entries(entries, now).contains_key(panes[i].key()));
    assert(recent_entries(entries, now).contains_key(panes[j].key()));
}

/// A pane is listed as recent if and only if the last event about it was a `notify` event that
/// is at most two minutes old and not in the future; it is listed with the text and the time of
/// that event.
pub proof fn law_notified_pane_is_listed(
    files: Seq<Seq<u8>>,
    f: int,
    k: int,
    event: EventView,
    now: int,
    panes: Seq<PaneView>,
)
    requires
        0 <= f < files.len(),
        0 <= k < byte_lines(files[f]).len(),
        byte_lines(files[f])[k] == encode_utf8(event_line_of(event)),
        reads_as_written(byte_lines(files[f])[k]),
        forall|j: int|
            k < j < byte_lines(files[f]).len() ==> !is_about(
                #[trigger] byte_lines(files[f])[j],
                event.key(),
            ),
        forall|g: int, j: int|
            f < g < files.len() && 0 <= j < byte_lines(files[g]).len() ==> !is_about(
                #[trigger] byte_lines(files[g])[j],
                event.key(),
            ),
        lists_in_order(panes, recent_entries(replay(files), now)),
    ensures
        match event {
            EventView::Notify { session_id, pane_id, pane_display_text, notify_time } => {
                let at = notify_time * 1_000_000;
                if at <= now <= at + 120_000_000_000 {
                    panes.contains(
                        PaneView {
                            session_id,
                            pane_id,
                            title: pane_display_text,
                            observed_at: at,
                        },
                    )
                } else {
                    forall|i: int|
                        0 <= i < panes.len() ==> (#[trigger] panes[i]).session_id != session_id
                            || panes[i].pane_id != pane_id
                }
            },
            EventView::Clear { session_id, pane_id } => forall|i: int|
                0 <= i < panes.len() ==> (#[trigger] panes[i]).session_id != session_id
                    || panes[i].pane_id != pane_id,
        },
{
    lemma_event_line_bytes(event);
    law_last_event_about_a_pane_decides(files, f, k, event);
    let entries = replay(files);
    let recent = recent_entries(entries, now);
    let key = event.key();
    if recent.contains_key(key) {
        let i = choose|i: int| 0 <= i < panes.len() && (#[trigger] panes[i]).key() == key;
        assert(panes[i] == recent[key]);
        assert(panes.contains(panes[i]));
    } else {
        assert forall|i: int| 0 <= i < panes.len() implies (#[trigger] panes[i]).key() != key by {
            assert(recent.contains_key(panes[i].key()));
        }
    }
    match event {
        EventView::Notify { session_id, pane_id, pane_display_text, notify_time } => {
            assert(entries.contains_key(key));
        },
        EventView::Clear { .. } => {},
    }
    assert forall|i: int| 0 <= i < panes.len() && !recent.contains_key(key) implies (
    #[trigger] panes[i]).session_id != key.0 || panes[i].pane_id != key.1 by {
        assert(panes[i].key() != key);
    }
}

} // verus!
