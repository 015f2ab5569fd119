//! What the other calls of the library give, in terms of what they are given: those about the
//! files of the log, about tmux, the ledger, the arguments and the state.
//!
//! A call is written as `call_ensures(function, arguments, result)`: the function, called with the
//! arguments, may return the result.

use crate::chooser_laws::{law_pane_row_shows_the_title, law_session_row_shows_the_name};
use crate::cli::{law_modes_take_one_path, law_other_arguments_are_refused, parse_mode, Mode};
use crate::error::VmuxError;
use crate::event_log::{
    event_log_path_from_env, is_segment, prune_old_segments, replay_sources, rotated_segments,
    rotation_name, segments_among, LogEntry, ReplaySource,
};
use crate::event_log_laws::{
    law_all_segments_are_found, law_log_is_in_the_cache_of_the_home, law_rotated_log_is_a_segment,
    law_segments_are_read_by_name, law_segments_sort_by_time,
};
use crate::layout::{rect_contains, Rect};
use crate::ledger_laws::{
    law_context_needs_all_its_fields, law_ledger_is_in_the_cache_of_the_home,
    law_named_socket_goes_before_the_one_of_tmux, law_record_tells_what_its_notification_told,
    law_tmux_goes_before_the_sender,
};
use crate::mouse::{
    parse_sgr_mouse_sequence, tmux_mouse_event_to_bytes, MouseEvent, ParsedSgrMouseSequence,
};
use crate::notify::{
    ledger_path_from_env, ledger_record_from_payload, live_context_from_output,
    load_recent_activity_windows, merge_tmux_context, recent_windows_of, records_of, timed_views,
    tmux_socket_spec_from_env, NotificationLedgerRecord, NotificationLedgerSession,
    NotificationPayloadV1, NotificationTmuxContext, TmuxSocketSpec,
};
use crate::panes::{
    is_within, pane_le, pane_views, session_entries, PaneTable, RecentPane, Timestamp,
};
use crate::recent_activity::{
    require_non_empty, ClearPayload, NotifyPayload, PayloadError, RecentActivityError,
};
use crate::routing_laws::{
    in_area, law_area_holds_its_cells, law_forwarded_event_is_told_relative_to_the_pane,
};
use crate::screen::{
    pane_cursor, readable_screen_to_lines, screen_cursor, screen_hides_cursor, screen_scroll,
    screen_size, screen_to_lines, visible_cursor_position,
};
use crate::screen_laws::law_cursor_is_shown_in_its_cell;
use crate::sidebar::{sidebar_item, sync_sidebar_list_offset, SidebarRow};
use crate::sidebar_laws::law_selected_row_is_seen;
use crate::state::AppState;
use crate::styled::{line_views, text_of, Line};
use crate::text::{split_on, str_view, text_le, trim, views_of};
use crate::text_laws::{
    all_white, is_trimmed, law_blank_text_is_all_white, law_trimming_takes_white_space_only,
};
use crate::tmux::{
    bell_window_of_line, bell_windows_from_output, bell_windows_of_lines, session_of_line,
    session_views, sessions_from_output, window_views, CommandOutput, RealTmuxAdapter,
    TmuxBellWindow, TmuxCommand, TmuxError, TmuxSession,
};
use crate::tmux_laws::{
    law_client_attaches_and_then_moves, law_every_session_is_listed,
    law_window_line_adds_its_window,
};
use vstd::prelude::*;
use vstd::utf8::{decode_utf8, valid_utf8};

verus! {

/// The log is where the environment says, and else in the cache of the home directory.
pub proof fn law_environment_says_where_the_log_is(
    log_path: Option<&str>,
    home: Option<&str>,
    path: String,
    ledger_path: String,
)
    requires
        call_ensures(event_log_path_from_env, (log_path, home), path),
        call_ensures(ledger_path_from_env, (log_path, home), ledger_path),
    ensures
        log_path matches Some(given) ==> path@ == given@ && ledger_path@ == given@,
        log_path is None && home is None ==> path@ == seq!['.', '/']
            + ".cache/vmux/recent-activity.jsonl"@ && ledger_path@ == seq!['.', '/']
            + ".cache/vmux/session-updates.jsonl"@,
        log_path is None && home is Some && home->0@.len() > 0 && home->0@.last() != '/' ==> path@
            == home->0@.push('/') + ".cache/vmux/recent-activity.jsonl"@ && ledger_path@
            == home->0@.push('/') + ".cache/vmux/session-updates.jsonl"@,
{
    match home {
        Some(home) => {
            law_log_is_in_the_cache_of_the_home(home@);
            law_ledger_is_in_the_cache_of_the_home(home@);
        },
        None => {
            law_log_is_in_the_cache_of_the_home(Seq::empty());
            law_ledger_is_in_the_cache_of_the_home(Seq::empty());
        },
    }
}

/// The log is rotated out once it has more than 64 KiB. What is rotated out later sorts later, is
/// found again as a segment and never has the name of the log itself.
pub proof fn law_large_log_is_rotated_out(
    len: u64,
    file_name: &str,
    millis: u128,
    pid: u32,
    name: Option<String>,
    later_len: u64,
    later_millis: u128,
    later_pid: u32,
    later_name: Option<String>,
)
    requires
        call_ensures(rotation_name, (len, Some(file_name), millis, pid), name),
        call_ensures(
            rotation_name,
            (later_len, Some(file_name), later_millis, later_pid),
            later_name,
        ),
        millis < later_millis < 100_000_000_000_000_000_000,
    ensures
        name is Some == (len > 65_536),
        name matches Some(name) ==> is_segment(name@, Some(file_name@)) && name@ != file_name@,
        name is Some && later_name is Some ==> text_le(name->0@, later_name->0@) && !text_le(
            later_name->0@,
            name->0@,
        ),
{
    law_rotated_log_is_a_segment(file_name@, millis as nat, pid as nat);
    law_segments_sort_by_time(
        Some(file_name@),
        millis as nat,
        later_millis as nat,
        pid as nat,
        later_pid as nat,
    );
}

/// The segments beside a log are all found, and nothing else, in the order of their names.
pub proof fn law_segments_are_found_in_order(
    entries: Vec<LogEntry>,
    file_name: Option<&str>,
    segments: Vec<LogEntry>,
    entry: LogEntry,
    i: int,
    j: int,
)
    requires
        call_ensures(rotated_segments, (entries, file_name), segments),
    ensures
        segments@.contains(entry) == (entries@.contains(entry) && !entry.is_active && is_segment(
            entry.name@,
            str_view(file_name),
        )),
        0 <= i < j < segments@.len() ==> text_le(segments@[i].name@, segments@[j].name@),
{
    let among = segments_among(entries@, str_view(file_name));
    law_all_segments_are_found(entries@, str_view(file_name), entry);
    if 0 <= i < j < segments@.len() {
        law_segments_are_read_by_name(segments@, among, i, j);
    }
    segments@.to_multiset_ensures();
    among.to_multiset_ensures();
    assert(segments@.to_multiset().count(entry) == among.to_multiset().count(entry));
}

/// All segments are replayed in their order, and the active log, if there is one, after them.
pub proof fn law_active_log_comes_last(
    segments: &Vec<LogEntry>,
    active_exists: bool,
    sources: Vec<ReplaySource>,
)
    requires
        call_ensures(replay_sources, (segments, active_exists), sources),
    ensures
        forall|i: int|
            0 <= i < segments@.len() ==> #[trigger] sources@[i] == ReplaySource::Segment(
                segments@[i].index,
            ),
        active_exists ==> sources@.len() == segments@.len() + 1 && sources@.last()
            == ReplaySource::Active,
        !active_exists ==> sources@.len() == segments@.len(),
{
}

/// The latest four segments stay, and all older ones go.
pub proof fn law_four_segments_stay(segments: &Vec<LogEntry>, surplus: Vec<usize>)
    requires
        call_ensures(prune_old_segments, (segments,), surplus),
    ensures
        surplus@.len() == if segments@.len() > 4 {
            segments@.len() - 4
        } else {
            0
        },
        forall|i: int| 0 <= i < surplus@.len() ==> #[trigger] surplus@[i] == segments@[i].index,
{
}

/// A client attaches to the session on the socket, and then moves to the window and to the pane
/// that are named.
pub proof fn law_client_command_attaches(
    adapter: &RealTmuxAdapter,
    session_id: &str,
    window_id: Option<&str>,
    pane_id: Option<&str>,
    command: TmuxCommand,
)
    requires
        call_ensures(
            RealTmuxAdapter::build_client_command,
            (adapter, session_id, window_id, pane_id),
            command,
        ),
    ensures
        ({
            let args = views_of(command.args@);
            let skip = if adapter.socket_name is Some {
                2int
            } else {
                0
            };
            let n = args.len() as int;
            &&& command.program@ == "tmux"@
            &&& adapter.socket_name matches Some(socket) ==> args[0] == "-L"@ && args[1] == socket@
            &&& args[skip] == "attach-session"@ && args[skip + 1] == "-t"@ && args[skip + 2]
                == session_id@
            &&& n == skip + 3 + (if window_id is Some {
                4int
            } else {
                0
            }) + (if pane_id is Some {
                4int
            } else {
                0
            })
            &&& window_id matches Some(id) ==> args[skip + 3] == ";"@ && args[skip + 4]
                == "select-window"@ && args[skip + 5] == "-t"@ && args[skip + 6] == id@
            &&& pane_id matches Some(id) ==> args[n - 4] == ";"@ && args[n - 3] == "select-pane"@
                && args[n - 2] == "-t"@ && args[n - 1] == id@
        }),
{
    law_client_attaches_and_then_moves(session_id@, str_view(window_id), str_view(pane_id));
}

/// tmux is asked for all sessions and all windows, in the formats that are read, on the socket.
pub proof fn law_lists_are_asked_for(
    adapter: &RealTmuxAdapter,
    sessions: TmuxCommand,
    windows: TmuxCommand,
)
    requires
        call_ensures(RealTmuxAdapter::list_sessions_command, (adapter,), sessions),
        call_ensures(RealTmuxAdapter::list_bell_windows_command, (adapter,), windows),
    ensures
        ({
            let socket = match adapter.socket_name {
                Some(socket) => seq!["-L"@, socket@],
                None => Seq::empty(),
            };
            &&& sessions.program@ == "tmux"@ && windows.program@ == "tmux"@
            &&& views_of(sessions.args@) =~= socket + seq![
                "list-sessions"@,
                "-F"@,
                "#{session_id}\t#S\t#{session_windows}\t#{?session_attached,1,0}"@,
            ]
            &&& views_of(windows.args@) =~= socket + seq![
                "list-windows"@,
                "-a"@,
                "-F"@,
                "#S:#{window_id}:#{window_bell_flag}"@,
            ]
        }),
{
}

/// Where tmux lists sessions in the format that it is asked for, each line gives its session, in
/// their order.
pub proof fn law_listed_sessions_are_read(
    output: CommandOutput,
    sessions: Result<Vec<TmuxSession>, TmuxError>,
    lines: Seq<Seq<char>>,
    i: int,
)
    requires
        call_ensures(sessions_from_output, (Ok(output),), sessions),
        output.success,
        valid_utf8(output.stdout@),
        lines == crate::lines::text_lines(decode_utf8(output.stdout@)),
        forall|k: int|
            0 <= k < lines.len() ==> !crate::text::is_blank(#[trigger] lines[k]) && session_of_line(
                lines[k],
            ) is Ok,
        0 <= i < lines.len(),
    ensures
        sessions matches Ok(sessions) && sessions@.len() == lines.len() && Ok::<_, Seq<char>>(
            sessions@[i]@,
        ) == session_of_line(lines[i]),
{
    law_every_session_is_listed(lines);
    let found = sessions->Ok_0@;
    assert(session_views(found).len() == found.len());
    assert(session_views(found)[i] == found[i]@);
}

/// A run of tmux that failed, or could not be made, gives an error and no list.
pub proof fn law_failed_run_gives_no_list(
    output: Result<CommandOutput, String>,
    sessions: Result<Vec<TmuxSession>, TmuxError>,
    windows: Result<Vec<TmuxBellWindow>, TmuxError>,
)
    requires
        call_ensures(sessions_from_output, (output,), sessions),
        call_ensures(bell_windows_from_output, (output,), windows),
    ensures
        output matches Err(words) ==> (sessions matches Err(TmuxError::Io(said)) && said@ == words@)
            && (windows matches Err(TmuxError::Io(said)) && said@ == words@),
        output is Ok && !output->Ok_0.success ==> (sessions matches Err(
            TmuxError::TmuxFailed(said),
        ) && said@ == "tmux "@ + "list-sessions"@ + " exited with status "@
            + output->Ok_0.status@) && (windows matches Err(TmuxError::TmuxFailed(said)) && said@
            == "tmux "@ + "list-windows"@ + " exited with status "@ + output->Ok_0.status@),
        output is Ok && output->Ok_0.success && !valid_utf8(output->Ok_0.stdout@) ==> (
        sessions matches Err(TmuxError::Utf8(_))) && (windows matches Err(TmuxError::Utf8(_))),
{
}

/// The arguments ask for the chooser, for a `notify` or for a `clear` with the path of a payload,
/// or are refused.
pub proof fn law_arguments_ask_for_a_mode(args: &Vec<String>, mode: Result<Mode, VmuxError>)
    requires
        call_ensures(parse_mode, (args,), mode),
    ensures
        ({
            let all = views_of(args@);
            let flagged = all.len() > 1 && all[1] == "--payload-path"@;
            let at = if flagged {
                2usize
            } else {
                1usize
            };
            if all.len() == 0 {
                mode == Ok::<Mode, VmuxError>(Mode::Ui)
            } else if all[0] == "notify"@ && all.len() == at + 1 {
                mode == Ok::<Mode, VmuxError>(Mode::Notify { payload: at })
            } else if all[0] == "clear"@ && all.len() == at + 1 {
                mode == Ok::<Mode, VmuxError>(Mode::Clear { payload: at })
            } else {
                mode matches Err(VmuxError::Usage(_))
            }
        }),
{
    let all = views_of(args@);
    reveal_strlit("notify");
    reveal_strlit("clear");
    assert("notify"@.len() != "clear"@.len());
    if all.len() > 0 {
        if all[0] == "notify"@ || all[0] == "clear"@ {
            law_modes_take_one_path(all);
        } else {
            law_other_arguments_are_refused(all);
        }
    }
}

/// The socket is the one that is named for the program, or else that of tmux; a blank one is
/// none.
pub proof fn law_socket_is_found(
    vmux_socket: Option<&str>,
    tmux: Option<&str>,
    socket: Option<TmuxSocketSpec>,
)
    requires
        call_ensures(tmux_socket_spec_from_env, (vmux_socket, tmux), socket),
    ensures
        ({
            let named = vmux_socket is Some && !all_white(vmux_socket->0@);
            let path = if tmux is Some {
                split_on(tmux->0@, ',')[0]
            } else {
                Seq::empty()
            };
            if named {
                socket matches Some(TmuxSocketSpec::Named(name)) && is_trimmed(
                    name@,
                    vmux_socket->0@,
                )
            } else if !all_white(path) {
                socket matches Some(TmuxSocketSpec::Path(found)) && is_trimmed(found@, path)
            } else {
                socket is None
            }
        }),
{
    let path = if tmux is Some {
        split_on(tmux->0@, ',')[0]
    } else {
        Seq::empty()
    };
    law_named_socket_goes_before_the_one_of_tmux(str_view(vmux_socket), str_view(tmux), path);
}

/// What a run of tmux told of where a notification comes from counts only if the run succeeded
/// and told all that was asked for.
pub proof fn law_failed_run_tells_no_context(
    output: Option<CommandOutput>,
    context: Option<NotificationLedgerSession>,
)
    requires
        call_ensures(live_context_from_output, (output,), context),
    ensures
        output is None ==> context is None,
        output is Some && (!output->0.success || !valid_utf8(output->0.stdout@)) ==> context
            is None,
        output is Some && output->0.success && valid_utf8(output->0.stdout@) ==> ({
            let fields = split_on(
                crate::notify::without_line_ends(decode_utf8(output->0.stdout@)),
                '\t',
            );
            &&& context is Some == (fields.len() >= 8)
            &&& context matches Some(context) ==> {
                &&& context.session_id matches Some(text) && text@ == fields[0]
                &&& context.session_name matches Some(text) && text@ == fields[1]
                &&& context.window_id matches Some(text) && text@ == fields[2]
                &&& context.window_name matches Some(text) && text@ == fields[4]
                &&& context.pane_id matches Some(text) && text@ == fields[5]
                &&& context.client_name matches Some(text) && text@ == fields[6]
            }
        }),
{
    if let Some(output) = output {
        if output.success && valid_utf8(output.stdout@) {
            let text = decode_utf8(output.stdout@);
            let fields = split_on(crate::notify::without_line_ends(text), '\t');
            law_context_needs_all_its_fields(text, fields);
            if let Some(context) = context {
                assert(context@ == crate::notify::context_of(text)->0);
            }
        }
    }
}

/// What tmux says goes before what the sender says, and each before nothing.
pub proof fn law_context_is_merged(
    sender: Option<NotificationTmuxContext>,
    live: Option<NotificationLedgerSession>,
    session: NotificationLedgerSession,
)
    requires
        call_ensures(merge_tmux_context, (sender, live), session),
    ensures
        live matches Some(live) ==> session@ == live@,
        live is None && sender is Some ==> {
            &&& session.session_id is None
            &&& session.session_name matches Some(text) && text@ == sender->0.session_name@
            &&& session.window_id matches Some(text) && text@ == sender->0.window_id@
            &&& session.window_index == Some(sender->0.window_index)
            &&& session.window_name matches Some(text) && text@ == sender->0.window_name@
            &&& session.pane_id matches Some(text) && text@ == sender->0.pane_id@
            &&& session.client_name matches Some(text) && text@ == sender->0.client_name@
            &&& session.client_pid == sender->0.client_pid
        },
{
    if live is None && sender is Some {
        law_tmux_goes_before_the_sender(sender, session, sender->0);
        let view = session@;
        assert(view.session_name == Some(sender->0.session_name@));
    }
}

/// A record that is made of a notification tells what the notification told.
pub proof fn law_record_is_made_of_its_notification(
    payload: NotificationPayloadV1,
    session: NotificationLedgerSession,
    record: NotificationLedgerRecord,
)
    requires
        call_ensures(ledger_record_from_payload, (payload, session), record),
    ensures
        record.version == payload.version,
        record.kind@ == "system-notification"@,
        record.timestamp == payload.timestamp,
        record.title@ == payload.title@,
        record.subtitle@ == payload.subtitle@,
        record.body@ == payload.body@,
        record.latest_assistant_message@ == payload.latest_assistant_message@,
        record.cwd@ == payload.cwd@,
        record.platform matches Some(platform) && platform@ == payload.platform@,
        record.session@ == session@,
{
    law_record_tells_what_its_notification_told(payload, session@);
    assert(record@.platform == Some(payload.platform@));
}

/// A record at the end of the ledger makes its window recent if it is one of a notification,
/// tells the window and is fresh; the windows of the records before it stay as they are.
pub proof fn law_last_record_adds_its_window(
    lines: &Vec<Option<NotificationLedgerRecord>>,
    more: &Vec<Option<NotificationLedgerRecord>>,
    record: NotificationLedgerRecord,
    now: Timestamp,
    windows: Vec<(TmuxBellWindow, Timestamp)>,
    more_windows: Vec<(TmuxBellWindow, Timestamp)>,
)
    requires
        call_ensures(load_recent_activity_windows, (lines, now), windows),
        more@ == lines@.push(Some(record)),
        call_ensures(load_recent_activity_windows, (more, now), more_windows),
    ensures
        ({
            let at = record.timestamp * 1_000_000;
            if record.kind@ == "system-notification"@ && record.session.session_name is Some
                && record.session.window_id is Some && at <= now.nanos <= at + 120_000_000_000 {
                &&& more_windows@.len() == windows@.len() + 1
                &&& more_windows@.last().0.session_name@ == record.session.session_name->0@
                &&& more_windows@.last().0.window_id@ == record.session.window_id->0@
                &&& more_windows@.last().1.nanos == at
                &&& timed_views(more_windows@).drop_last() == timed_views(windows@)
            } else {
                timed_views(more_windows@) == timed_views(windows@)
            }
        }),
{
    let before = records_of(lines@);
    assert(more@.drop_last() =~= lines@);
    let after = records_of(more@);
    assert(after == before.push(record@));
    assert(after.drop_last() =~= before);
    let n = now.nanos as int;
    let old_views = recent_windows_of(before, n);
    let views = timed_views(more_windows@);
    assert(views.len() == more_windows@.len());
    assert(timed_views(windows@).len() == windows@.len());
    if views.len() > old_views.len() {
        assert(views.drop_last() =~= old_views);
        assert(views.last() == (
            more_windows@.last().0@,
            more_windows@.last().1.nanos as int,
        ));
    }
}

/// Trimming takes the white space at both ends away, all of it and nothing else.
pub proof fn law_trimmed_text_is_what_stands_between(s: &str, trimmed: String)
    requires
        call_ensures(trim, (s,), trimmed),
    ensures
        is_trimmed(trimmed@, s@),
{
    law_trimming_takes_white_space_only(s@);
}

/// What is sent of a mouse event is read again as that event, at its place in the pane.
pub proof fn law_sent_report_is_read_again(
    event: &MouseEvent,
    pane: Rect,
    bytes: Vec<u8>,
    slice: &[u8],
    parsed: ParsedSgrMouseSequence,
)
    requires
        call_ensures(tmux_mouse_event_to_bytes, (event, pane), bytes),
        slice@ == bytes@,
        call_ensures(parse_sgr_mouse_sequence, (slice,), parsed),
        pane.x <= event.column < pane.x + pane.width,
        pane.y <= event.row < pane.y + pane.height,
    ensures
        parsed matches ParsedSgrMouseSequence::Complete { event: told, consumed } && consumed
            == bytes@.len() && told.column == event.column - pane.x && told.row == event.row
            - pane.y && told.modifiers == event.modifiers && (if event.kind is Up {
            told.kind is Up
        } else {
            told.kind == event.kind
        }),
{
    law_forwarded_event_is_told_relative_to_the_pane(*event, pane);
}

/// After the list was scrolled, the selected row is in sight.
pub proof fn law_scrolled_list_shows_the_selection(
    offset: &mut usize,
    selected: usize,
    visible: usize,
    items: usize,
)
    requires
        call_ensures(sync_sidebar_list_offset, (offset, selected, visible, items), ()),
        visible > 0,
        selected < items,
    ensures
        *final(offset) <= selected < *final(offset) + visible,
        *final(offset) + visible <= items || *final(offset) == 0,
{
    law_selected_row_is_seen(
        *old(offset) as nat,
        selected as nat,
        visible as nat,
        items as nat,
    );
}

/// Selecting and moving do what they say, and leave the sessions and their panes alone.
pub proof fn law_selection_calls_select(
    state: &mut AppState,
    index: usize,
    other: &mut AppState,
    pane: &RecentPane,
)
    requires
        call_ensures(AppState::select_session, (state, index), ()),
        call_ensures(AppState::select_pane, (other, index, pane), ()),
    ensures
        final(state)@.sessions == old(state)@.sessions,
        final(state)@.recent == old(state)@.recent,
        final(other)@.sessions == old(other)@.sessions,
        final(other)@.recent == old(other)@.recent,
        index < old(state)@.sessions.len() ==> final(state)@.selected == index,
        index < old(state)@.sessions.len() ==> final(state)@.selected_pane is None,
        index < old(other)@.sessions.len() ==> final(other)@.selected == index,
        index < old(other)@.sessions.len() ==> final(other)@.selected_pane == Some(pane.pane_id@),
        index >= old(state)@.sessions.len() ==> final(state)@ == old(state)@,
        index >= old(other)@.sessions.len() ==> final(other)@ == old(other)@,
{
}

/// A move up or down goes to the next session, around the ends, and selects no pane.
pub proof fn law_move_calls_move(up: &mut AppState, down: &mut AppState)
    requires
        call_ensures(AppState::move_up, (up,), ()),
        call_ensures(AppState::move_down, (down,), ()),
        old(up)@.selection_in_range() && old(up)@.sessions.len() > 0,
        old(down)@.selection_in_range() && old(down)@.sessions.len() > 0,
    ensures
        final(up)@.selected == if old(up)@.selected == 0 {
            old(up)@.sessions.len() - 1
        } else {
            old(up)@.selected - 1
        },
        final(down)@.selected == if old(down)@.selected + 1 == old(down)@.sessions.len() {
            0
        } else {
            old(down)@.selected + 1
        },
        final(up)@.selected_pane is None && final(down)@.selected_pane is None,
        final(up)@.sessions == old(up)@.sessions && final(down)@.sessions == old(down)@.sessions,
{
    crate::state_laws::law_move_goes_to_the_next_session(old(up)@);
    crate::state_laws::law_move_goes_to_the_next_session(old(down)@);
    crate::state_laws::law_selection_wraps_around(old(up)@);
    crate::state_laws::law_selection_wraps_around(old(down)@);
    crate::state_laws::law_selection_stays_in_range(old(up)@, 0, Seq::empty(), Seq::empty());
}

/// A table has the pane that was entered last under its ids, has none that was removed, and
/// keeps all others.
pub proof fn law_table_keeps_one_entry_for_each_pane(
    table: &mut PaneTable,
    pane: RecentPane,
    other: &mut PaneTable,
    session_id: &str,
    pane_id: &str,
    key: (Seq<char>, Seq<char>),
)
    requires
        call_ensures(PaneTable::insert, (table, pane), ()),
        call_ensures(PaneTable::remove, (other, session_id, pane_id), ()),
    ensures
        ({
            let own = (pane.session_id@, pane.pane_id@);
            &&& final(table)@.contains_key(own)
            &&& final(table)@[own].title == pane.title@
            &&& final(table)@[own].observed_at == pane.observed_at.nanos
            &&& key != own ==> final(table)@.contains_key(key) == old(table)@.contains_key(key)
            &&& key != own && old(table)@.contains_key(key) ==> final(table)@[key]
                == old(table)@[key]
        }),
        !final(other)@.contains_key((session_id@, pane_id@)),
        key != (session_id@, pane_id@) ==> final(other)@.contains_key(key)
            == old(other)@.contains_key(key),
        key != (session_id@, pane_id@) && old(other)@.contains_key(key) ==> final(other)@[key]
            == old(other)@[key],
{
}

/// Moments count in nanoseconds, and one is within a time of another if it is neither after it
/// nor further before it than that.
pub proof fn law_moments_count_in_nanoseconds(
    count: u64,
    millis: Timestamp,
    secs: Timestamp,
    at: Timestamp,
    now: Timestamp,
    ttl: u64,
    within: bool,
)
    requires
        call_ensures(Timestamp::from_millis, (count,), millis),
        call_ensures(Timestamp::from_secs, (count,), secs),
        call_ensures(is_within, (at, now, ttl), within),
    ensures
        millis.nanos == count * 1_000_000,
        secs.nanos == count * 1_000_000_000,
        within == (at.nanos <= now.nanos && now.nanos - at.nanos <= ttl),
{
}

/// The commands of the program add the lines that the event log has for them, and pass its
/// errors on.
pub proof fn law_commands_add_the_lines_of_the_log(
    payload_path: &str,
    notify: Result<NotifyPayload, PayloadError>,
    notified: Result<String, VmuxError>,
    notify_line: Result<String, RecentActivityError>,
    clear: Result<ClearPayload, PayloadError>,
    cleared: Result<String, VmuxError>,
    clear_line: Result<String, RecentActivityError>,
)
    requires
        call_ensures(crate::run_notify, (payload_path, notify), notified),
        call_ensures(crate::recent_activity::run_notify, (payload_path, notify), notify_line),
        call_ensures(crate::run_clear, (payload_path, clear), cleared),
        call_ensures(crate::recent_activity::run_clear, (payload_path, clear), clear_line),
    ensures
        match (notified, notify_line) {
            (Ok(a), Ok(b)) => a@ == b@,
            (Err(VmuxError::RecentActivity(a)), Err(b)) => a@ == b@,
            _ => false,
        },
        match (cleared, clear_line) {
            (Ok(a), Ok(b)) => a@ == b@,
            (Err(VmuxError::RecentActivity(a)), Err(b)) => a@ == b@,
            _ => false,
        },
{
}

/// A row is drawn as the name of its session, marked where a client is attached, or as the title
/// of its pane.
pub proof fn law_row_is_drawn_as_what_it_stands_for(
    row: &SidebarRow,
    sessions: &Vec<TmuxSession>,
    line: Line,
)
    requires
        call_ensures(sidebar_item, (row, sessions), line),
        row matches SidebarRow::Session { session_index } ==> *session_index < sessions@.len(),
    ensures
        match *row {
            SidebarRow::Session { session_index } => text_of(line@)
                == if sessions@[session_index as int].attached {
                sessions@[session_index as int].name@ + " (attached)"@
            } else {
                sessions@[session_index as int].name@
            },
            SidebarRow::Pane { pane, .. } => text_of(line@) == seq![' ', ' '] + pane.title@,
            SidebarRow::Spacer => line.spans@.len() == 0,
        },
{
    match *row {
        SidebarRow::Session { session_index } => {
            law_session_row_shows_the_name(session_index as nat, sessions@);
        },
        SidebarRow::Pane { session_index, pane } => {
            law_pane_row_shows_the_title(session_index as nat, pane@, sessions@);
        },
        SidebarRow::Spacer => {
            assert(line@.len() == line.spans@.len());
        },
    }
}

/// A cell lies in an area if and only if it is within its columns and its rows.
pub proof fn law_area_contains_its_cells(area: Rect, column: u16, row: u16, yes: bool)
    requires
        call_ensures(rect_contains, (area, column, row), yes),
    ensures
        yes == in_area(area, column, row),
{
    law_area_holds_its_cells(area, column, row);
}

/// The cursor is shown where it is in the pane, if it is not hidden and lies within.
pub proof fn law_cursor_is_shown_in_the_pane(
    hidden: bool,
    at: (u16, u16),
    pane: Rect,
    shown: Option<(u16, u16)>,
)
    requires
        call_ensures(pane_cursor, (hidden, at, pane), shown),
        pane.x + pane.width <= 0xffff,
        pane.y + pane.height <= 0xffff,
    ensures
        match shown {
            Some((column, row)) => !hidden && at.1 < pane.width && at.0 < pane.height && column
                == pane.x + at.1 && row == pane.y + at.0,
            None => hidden || at.1 >= pane.width || at.0 >= pane.height,
        },
{
    law_cursor_is_shown_in_its_cell(hidden, at, pane);
}

/// A bell window is listed for each line that tells of one, and only for such, where every line
/// is good; the last line adds the last.
pub proof fn law_windows_with_a_bell_are_listed(
    lines: Seq<Seq<char>>,
    line: Seq<char>,
    output: CommandOutput,
    windows: Result<Vec<TmuxBellWindow>, TmuxError>,
)
    requires
        call_ensures(bell_windows_from_output, (Ok(output),), windows),
        output.success,
        valid_utf8(output.stdout@),
        crate::lines::text_lines(decode_utf8(output.stdout@)) == lines.push(line),
        !crate::text::is_blank(line),
        bell_windows_of_lines(lines) is Ok,
        bell_window_of_line(line) matches Ok(Some(_)),
    ensures
        windows matches Ok(windows) && windows@.len() == bell_windows_of_lines(lines)->Ok_0.len()
            + 1 && Ok::<_, Seq<char>>(Some(windows@.last()@)) == bell_window_of_line(line),
{
    law_window_line_adds_its_window(lines, line);
    let found = windows->Ok_0@;
    assert(window_views(found).len() == found.len());
    assert(window_views(found).last() == found.last()@);
}

/// The cursor of a screen is shown at its row and its column of the pane, if the screen does not
/// hide it and it lies within.
pub proof fn law_cursor_of_the_screen_is_shown(
    screen: &vt100::Screen,
    pane: Rect,
    shown: Option<(u16, u16)>,
)
    requires
        call_ensures(visible_cursor_position, (screen, pane), shown),
        pane.x + pane.width <= 0xffff,
        pane.y + pane.height <= 0xffff,
    ensures
        ({
            let (row, col) = screen_cursor(*screen);
            match shown {
                Some(at) => !screen_hides_cursor(*screen) && col < pane.width && row < pane.height
                    && at.0 == pane.x + col && at.1 == pane.y + row,
                None => screen_hides_cursor(*screen) || col >= pane.width || row >= pane.height,
            }
        }),
{
    law_cursor_is_shown_in_its_cell(screen_hides_cursor(*screen), screen_cursor(*screen), pane);
}

/// A screen is drawn wherever its cells can be asked for, and then as it is.
pub proof fn law_readable_screen_is_drawn(
    screen: &vt100::Screen,
    width: u16,
    height: u16,
    drawn: Option<Vec<Line>>,
    lines: Vec<Line>,
)
    requires
        call_ensures(readable_screen_to_lines, (screen, width, height), drawn),
        call_ensures(screen_to_lines, (screen, width, height), lines),
    ensures
        drawn is Some == (screen_scroll(*screen) <= screen_size(*screen).0),
        drawn matches Some(drawn) ==> drawn@.len() == height && line_views(drawn@) == line_views(
            lines@,
        ),
{
    if let Some(drawn) = drawn {
        assert(line_views(drawn@).len() == drawn@.len());
    }
}

/// A field is taken without the white space around it, and refused by its name if it holds
/// nothing else.
pub proof fn law_field_has_to_hold_something(
    field_name: &str,
    value: &str,
    trimmed: Result<String, RecentActivityError>,
)
    requires
        call_ensures(require_non_empty, (field_name, value), trimmed),
    ensures
        !all_white(value@) ==> (trimmed matches Ok(trimmed) && is_trimmed(trimmed@, value@)),
        all_white(value@) ==> (trimmed matches Err(RecentActivityError::Usage(words)) && words@
            == field_name@ + " must be a non-empty string"@),
{
    law_trimming_takes_white_space_only(value@);
    law_blank_text_is_all_white(value@);
}

/// The recent panes of a session are listed with nothing left out: those with its id, each once,
/// the latest first.
pub proof fn law_panes_of_a_session_are_listed(
    state: &AppState,
    session_id: &str,
    panes: Vec<RecentPane>,
    i: int,
    j: int,
    key: (Seq<char>, Seq<char>),
)
    requires
        call_ensures(AppState::recent_panes_for_session, (state, session_id), panes),
    ensures
        0 <= i < panes@.len() ==> panes@[i].session_id@ == session_id@ && state@.recent.contains_key(
            (session_id@, panes@[i].pane_id@),
        ) && state@.recent[(session_id@, panes@[i].pane_id@)] == panes@[i]@,
        0 <= i < j < panes@.len() ==> panes@[i].observed_at.nanos >= panes@[j].observed_at.nanos
            && panes@[i].pane_id@ != panes@[j].pane_id@,
        state@.recent.contains_key(key) && state@.recent[key].session_id == session_id@
            ==> exists|k: int|
            0 <= k < panes@.len() && (#[trigger] panes@[k])@ == state@.recent[key],
{
    let views = pane_views(panes@);
    let entries = session_entries(state@.recent, session_id@);
    assert(views.len() == panes@.len());
    if 0 <= i < panes@.len() {
        assert(views[i] == panes@[i]@);
        assert(entries.contains_key(views[i].key()));
    }
    if 0 <= i < j < panes@.len() {
        assert(views[j] == panes@[j]@);
        assert(entries.contains_key(views[j].key()));
        assert(views[i].key() != views[j].key());
        assert(pane_le(views[i], views[j]));
    }
    if state@.recent.contains_key(key) && state@.recent[key].session_id == session_id@ {
        assert(entries.contains_key(key));
        let k = choose|k: int| 0 <= k < views.len() && (#[trigger] views[k]).key() == key;
        assert(views[k] == panes@[k]@);
    }
}

} // verus!
