//! What holds of the ledger of notifications.

use crate::json::{json_text, members_text, object_text};
use crate::notify::{
    context_command_of, context_of, default_ledger, ledger_line_of, ledger_outcome, merged_context,
    optional_index, optional_pid, optional_text, recent_window_of, recent_windows_of,
    record_members, record_of, records_of, session_members, signed_numeral, socket_of,
    without_line_ends, LedgerSessionView, NotificationLedgerRecord, NotificationLedgerSession,
    NotificationPayloadV1, NotificationTmuxContext, NotifyErrorView, RecordView, SocketView,
};
use crate::recent_activity::{event_line_of, EventView, PayloadError};
use crate::text::{
    all_digits, is_digit, lemma_numeral_round_trip, lemma_split_append_piece, lemma_split_of_piece,
    lemma_unsigned_of_numeral, numeral_of, option_view, signed_of, split_on, unsigned_of,
};
use crate::text_laws::{
    all_white, is_trimmed, law_blank_text_is_all_white, law_trimming_takes_white_space_only,
};
use crate::tmux::WindowView;
use vstd::prelude::*;

verus! {

/// The socket is the one that is named for the program; where none is, the one in the first
/// field that tmux itself has set. White space around either does not count.
pub proof fn law_named_socket_goes_before_the_one_of_tmux(
    vmux_socket: Option<Seq<char>>,
    tmux: Option<Seq<char>>,
    path: Seq<char>,
)
    requires
        tmux matches Some(tmux) ==> path == split_on(tmux, ',')[0],
        tmux is None ==> path.len() == 0,
    ensures
        match socket_of(vmux_socket, tmux) {
            Some(SocketView::Named(name)) => vmux_socket matches Some(given) && !all_white(given)
                && is_trimmed(name, given) && name.len() > 0,
            Some(SocketView::Path(found)) => (vmux_socket matches Some(given) ==> all_white(given))
                && !all_white(path) && is_trimmed(found, path) && found.len() > 0,
            None => (vmux_socket matches Some(given) ==> all_white(given)) && all_white(path),
        },
{
    if let Some(given) = vmux_socket {
        law_blank_text_is_all_white(given);
        law_trimming_takes_white_space_only(given);
    }
    law_blank_text_is_all_white(path);
    law_trimming_takes_white_space_only(path);
}

/// tmux is asked on the right socket, and about the pane if one is named: the name of a socket
/// goes with `-L`, the path of one with `-S`, and the pane with `-t`.
pub proof fn law_tmux_is_asked_about_the_pane(socket: SocketView, pane: Option<Seq<char>>)
    ensures
        ({
            let command = context_command_of(socket, pane);
            let args = command.args;
            let n = args.len() as int;
            let named = pane matches Some(pane) && !all_white(pane);
            &&& command.program == "tmux"@
            &&& n == if named {
                8int
            } else {
                6
            }
            &&& match socket {
                SocketView::Named(name) => args[0] == "-L"@ && args[1] == name,
                SocketView::Path(path) => args[0] == "-S"@ && args[1] == path,
            }
            &&& args[2] == "display-message"@ && args[3] == "-p"@
            &&& named ==> args[4] == "-t"@ && is_trimmed(args[5], pane->0) && args[5].len() > 0
            &&& args[n - 2] == "-F"@ && args[n - 1]
                == "#{session_id}\t#{session_name}\t#{window_id}\t#{window_index}\t#{window_name}\t#{pane_id}\t#{client_name}\t#{client_pid}"@
        }),
{
    if let Some(pane) = pane {
        law_blank_text_is_all_white(pane);
        law_trimming_takes_white_space_only(pane);
    }
}

/// A whole number of 32 bits that is written out is read back.
pub proof fn law_signed_number_is_read_back(n: i32)
    ensures
        signed_of(signed_numeral(n as int)) == Some(n as int),
{
    if n < 0 {
        let digits = numeral_of((-n) as nat);
        lemma_numeral_round_trip((-n) as nat);
        let text = signed_numeral(n as int);
        assert(text[0] == '-');
        assert(text.drop_first() =~= digits);
    } else {
        let digits = numeral_of(n as nat);
        lemma_numeral_round_trip(n as nat);
        assert(is_digit(digits[0]));
        lemma_unsigned_of_numeral(n as nat, i32::MAX as nat);
    }
}

proof fn lemma_line_ends_go(s: Seq<char>, ends: Seq<char>)
    requires
        forall|i: int| 0 <= i < ends.len() ==> #[trigger] ends[i] == '\r' || ends[i] == '\n',
        s.len() > 0 ==> s.last() != '\r' && s.last() != '\n',
    ensures
        without_line_ends(s + ends) == s,
    decreases ends.len(),
{
    if ends.len() == 0 {
        assert(s + ends =~= s);
    } else {
        assert((s + ends).drop_last() =~= s + ends.drop_last());
        assert((s + ends).last() == ends[ends.len() - 1]);
        assert forall|i: int| 0 <= i < ends.drop_last().len() implies #[trigger] ends.drop_last()[i]
            == '\r' || ends.drop_last()[i] == '\n' by {
            assert(ends.drop_last()[i] == ends[i]);
        }
        lemma_line_ends_go(s, ends.drop_last());
    }
}

/// What tmux tells of where a notification comes from is read field by field, whatever line ends
/// follow: none of the texts may hold a tab, and the numbers are written out.
pub proof fn law_context_is_read_back(
    session_id: Seq<char>,
    session_name: Seq<char>,
    window_id: Seq<char>,
    window_index: i32,
    window_name: Seq<char>,
    pane_id: Seq<char>,
    client_name: Seq<char>,
    client_pid: u32,
    ends: Seq<char>,
)
    requires
        !session_id.contains('\t'),
        !session_name.contains('\t'),
        !window_id.contains('\t'),
        !window_name.contains('\t'),
        !pane_id.contains('\t'),
        !client_name.contains('\t'),
        forall|i: int| 0 <= i < ends.len() ==> #[trigger] ends[i] == '\r' || ends[i] == '\n',
    ensures
        ({
            let text = session_id.push('\t') + session_name.push('\t') + window_id.push('\t')
                + signed_numeral(window_index as int).push('\t') + window_name.push('\t')
                + pane_id.push('\t') + client_name.push('\t') + numeral_of(client_pid as nat);
            context_of(text + ends) matches Some(context) && {
                &&& context.session_id == Some(session_id)
                &&& context.session_name == Some(session_name)
                &&& context.window_id == Some(window_id)
                &&& context.window_index == Some(window_index)
                &&& context.window_name == Some(window_name)
                &&& context.pane_id == Some(pane_id)
                &&& context.client_name == Some(client_name)
                &&& context.client_pid == Some(client_pid)
            }
        }),
{
    let index = signed_numeral(window_index as int);
    let pid = numeral_of(client_pid as nat);
    let text = session_id.push('\t') + session_name.push('\t') + window_id.push('\t') + index.push(
        '\t',
    ) + window_name.push('\t') + pane_id.push('\t') + client_name.push('\t') + pid;
    lemma_numeral_round_trip(client_pid as nat);
    lemma_number_has_no_tab(pid);
    assert(!index.contains('\t')) by {
        if window_index < 0 {
            let digits = numeral_of((-window_index) as nat);
            lemma_numeral_round_trip((-window_index) as nat);
            lemma_number_has_no_tab(digits);
            assert forall|i: int| 0 <= i < index.len() implies index[i] != '\t' by {
                if i > 0 {
                    assert(digits.contains(digits[i - 1]));
                }
            }
        } else {
            lemma_numeral_round_trip(window_index as nat);
            lemma_number_has_no_tab(index);
        }
    }
    assert(is_digit(pid[pid.len() - 1]));
    assert(text.last() == pid.last());
    lemma_line_ends_go(text, ends);
    let b = session_id.push('\t') + session_name;
    let c = b.push('\t') + window_id;
    let d = c.push('\t') + index;
    let e = d.push('\t') + window_name;
    let f = e.push('\t') + pane_id;
    let g = f.push('\t') + client_name;
    let h = g.push('\t') + pid;
    lemma_split_of_piece(session_id, '\t');
    lemma_split_append_piece(session_id, '\t', session_name);
    lemma_split_append_piece(b, '\t', window_id);
    lemma_split_append_piece(c, '\t', index);
    lemma_split_append_piece(d, '\t', window_name);
    lemma_split_append_piece(e, '\t', pane_id);
    lemma_split_append_piece(f, '\t', client_name);
    lemma_split_append_piece(g, '\t', pid);
    assert(text =~= h);
    assert(split_on(text, '\t') =~= seq![
        session_id,
        session_name,
        window_id,
        index,
        window_name,
        pane_id,
        client_name,
        pid,
    ]);
    law_signed_number_is_read_back(window_index);
    lemma_unsigned_of_numeral(client_pid as nat, u32::MAX as nat);
}

proof fn lemma_number_has_no_tab(digits: Seq<char>)
    requires
        all_digits(digits),
    ensures
        !digits.contains('\t'),
{
    assert forall|i: int| 0 <= i < digits.len() implies digits[i] != '\t' by {
        assert(is_digit(digits[i]));
    }
}

/// With fewer than eight fields nothing is known; a number that cannot be read is left out, and
/// takes nothing else with it.
pub proof fn law_context_needs_all_its_fields(text: Seq<char>, fields: Seq<Seq<char>>)
    requires
        fields == split_on(without_line_ends(text), '\t'),
    ensures
        context_of(text) is Some == (fields.len() >= 8),
        context_of(text) matches Some(context) ==> {
            &&& context.session_id == Some(fields[0])
            &&& context.session_name == Some(fields[1])
            &&& context.window_id == Some(fields[2])
            &&& context.window_index is Some == signed_of(fields[3]) is Some
            &&& context.window_name == Some(fields[4])
            &&& context.pane_id == Some(fields[5])
            &&& context.client_name == Some(fields[6])
            &&& context.client_pid is Some == unsigned_of(fields[7], 0xffff_ffff) is Some
        },
{
}

/// What tmux says of where a notification comes from goes before what its sender says; what the
/// sender says counts where tmux says nothing.
pub proof fn law_tmux_goes_before_the_sender(
    sender: Option<NotificationTmuxContext>,
    live: NotificationLedgerSession,
    tmux: NotificationTmuxContext,
)
    ensures
        merged_context(sender, Some(live)) == live@,
        merged_context(Some(tmux), None) == (LedgerSessionView {
            session_id: None,
            session_name: Some(tmux.session_name@),
            window_id: Some(tmux.window_id@),
            window_index: Some(tmux.window_index),
            window_name: Some(tmux.window_name@),
            pane_id: Some(tmux.pane_id@),
            client_name: Some(tmux.client_name@),
            client_pid: tmux.client_pid,
        }),
        ({
            let unknown = merged_context(None, None);
            &&& unknown.session_id is None && unknown.session_name is None
            &&& unknown.window_id is None && unknown.window_index is None
            &&& unknown.window_name is None && unknown.pane_id is None
            &&& unknown.client_name is None && unknown.client_pid is None
        }),
{
}

/// A record tells everything that its notification told, and where it came from.
pub proof fn law_record_tells_what_its_notification_told(
    payload: NotificationPayloadV1,
    session: LedgerSessionView,
)
    ensures
        ({
            let record = record_of(payload, session);
            &&& record.version == payload.version
            &&& record.kind == "system-notification"@
            &&& record.source == "vmux"@
            &&& record.timestamp == payload.timestamp
            &&& record.title == payload.title@
            &&& record.subtitle == payload.subtitle@
            &&& record.body == payload.body@
            &&& record.latest_assistant_message == payload.latest_assistant_message@
            &&& record.cwd == payload.cwd@
            &&& record.platform == Some(payload.platform@)
            &&& record.terminal_bundle_id == option_view(payload.terminal.bundle_id)
            &&& record.session == session
        }),
{
}

/// A text that may be missing, as JSON.
pub open spec fn text_or_null(text: Option<Seq<char>>) -> Seq<char> {
    match text {
        Some(text) => json_text(text),
        None => "null"@,
    }
}

/// A number that may be missing, as JSON.
pub open spec fn index_or_null(index: Option<i32>) -> Seq<char> {
    match index {
        Some(index) => signed_numeral(index as int),
        None => "null"@,
    }
}

/// The number of a process that may be missing, as JSON.
pub open spec fn pid_or_null(pid: Option<u32>) -> Seq<char> {
    match pid {
        Some(pid) => numeral_of(pid as nat),
        None => "null"@,
    }
}

/// The line of a record has a member for each thing that the record tells, by its own name.
pub proof fn law_record_line_has_all_members(record: RecordView)
    ensures
        ({
            let session = record.session;
            let inner = seq![
                ("sessionId"@, text_or_null(session.session_id)),
                ("sessionName"@, text_or_null(session.session_name)),
                ("windowId"@, text_or_null(session.window_id)),
                ("windowIndex"@, index_or_null(session.window_index)),
                ("windowName"@, text_or_null(session.window_name)),
                ("paneId"@, text_or_null(session.pane_id)),
                ("clientName"@, text_or_null(session.client_name)),
                ("clientPid"@, pid_or_null(session.client_pid)),
            ];
            ledger_line_of(record) == object_text(
                seq![
                    ("version"@, numeral_of(record.version as nat)),
                    ("kind"@, json_text(record.kind)),
                    ("source"@, json_text(record.source)),
                    ("timestamp"@, numeral_of(record.timestamp as nat)),
                    ("title"@, json_text(record.title)),
                    ("subtitle"@, json_text(record.subtitle)),
                    ("body"@, json_text(record.body)),
                    ("latestAssistantMessage"@, json_text(record.latest_assistant_message)),
                    ("cwd"@, json_text(record.cwd)),
                    ("platform"@, text_or_null(record.platform)),
                    ("terminalBundleId"@, text_or_null(record.terminal_bundle_id)),
                    ("session"@, object_text(inner)),
                ],
            )
        }),
{
    assert forall|text: Option<Seq<char>>| #[trigger]
        optional_text(text) == text_or_null(text) by {}
    let session = record.session;
    assert(optional_index(session.window_index) == index_or_null(session.window_index));
    assert(optional_pid(session.client_pid) == pid_or_null(session.client_pid));
    let inner = seq![
        ("sessionId"@, text_or_null(session.session_id)),
        ("sessionName"@, text_or_null(session.session_name)),
        ("windowId"@, text_or_null(session.window_id)),
        ("windowIndex"@, index_or_null(session.window_index)),
        ("windowName"@, text_or_null(session.window_name)),
        ("paneId"@, text_or_null(session.pane_id)),
        ("clientName"@, text_or_null(session.client_name)),
        ("clientPid"@, pid_or_null(session.client_pid)),
    ];
    assert(session_members(session) =~= inner);
    assert(record_members(record) =~= seq![
        ("version"@, numeral_of(record.version as nat)),
        ("kind"@, json_text(record.kind)),
        ("source"@, json_text(record.source)),
        ("timestamp"@, numeral_of(record.timestamp as nat)),
        ("title"@, json_text(record.title)),
        ("subtitle"@, json_text(record.subtitle)),
        ("body"@, json_text(record.body)),
        ("latestAssistantMessage"@, json_text(record.latest_assistant_message)),
        ("cwd"@, json_text(record.cwd)),
        ("platform"@, text_or_null(record.platform)),
        ("terminalBundleId"@, text_or_null(record.terminal_bundle_id)),
        ("session"@, object_text(inner)),
    ]);
}

/// The line of an event has a member for each thing that the event tells, by its own name.
pub proof fn law_event_line_has_all_members(event: EventView)
    ensures
        event_line_of(event) == object_text(
            match event {
                EventView::Notify { session_id, pane_id, pane_display_text, notify_time } => seq![
                    ("version"@, numeral_of(1)),
                    ("event"@, json_text("notify"@)),
                    ("sessionId"@, json_text(session_id)),
                    ("paneId"@, json_text(pane_id)),
                    ("paneDisplayText"@, json_text(pane_display_text)),
                    ("notifyTime"@, numeral_of(notify_time as nat)),
                ],
                EventView::Clear { session_id, pane_id } => seq![
                    ("version"@, numeral_of(1)),
                    ("event"@, json_text("clear"@)),
                    ("sessionId"@, json_text(session_id)),
                    ("paneId"@, json_text(pane_id)),
                ],
            },
        ),
{
    let fields = crate::recent_activity::event_fields(event);
    let members = fields.map_values(
        |field: (Seq<char>, crate::json::JsonFieldView)| (
            field.0,
            crate::json::field_text(field.1),
        ),
    );
    assert(members =~= match event {
        EventView::Notify { session_id, pane_id, pane_display_text, notify_time } => seq![
            ("version"@, numeral_of(1)),
            ("event"@, json_text("notify"@)),
            ("sessionId"@, json_text(session_id)),
            ("paneId"@, json_text(pane_id)),
            ("paneDisplayText"@, json_text(pane_display_text)),
            ("notifyTime"@, numeral_of(notify_time as nat)),
        ],
        EventView::Clear { session_id, pane_id } => seq![
            ("version"@, numeral_of(1)),
            ("event"@, json_text("clear"@)),
            ("sessionId"@, json_text(session_id)),
            ("paneId"@, json_text(pane_id)),
        ],
    });
}

/// An object has braces around its members, a colon after each name and a comma between each
/// two members.
pub proof fn law_object_lists_its_members(
    members: Seq<(Seq<char>, Seq<char>)>,
    member: (Seq<char>, Seq<char>),
)
    ensures
        object_text(Seq::empty()) == seq!['{', '}'],
        object_text(members) == seq!['{'] + members_text(members) + seq!['}'],
        members_text(members.push(member)) == if members.len() == 0 {
            json_text(member.0).push(':') + member.1
        } else {
            members_text(members).push(',') + (json_text(member.0).push(':') + member.1)
        },
{
    assert(object_text(Seq::empty()) =~= seq!['{', '}']);
    assert(members.push(member).drop_last() =~= members);
    assert(json_text(member.0) + seq![':'] =~= json_text(member.0).push(':'));
    if members.len() > 0 {
        assert(members_text(members) + seq![','] =~= members_text(members).push(','));
    }
}

/// A notification adds the line of its record if it is known where it comes from; else, or
/// without a payload that could be read, it adds none and tells why.
pub proof fn law_notification_adds_its_record(
    payload_path: Seq<char>,
    payload: NotificationPayloadV1,
    live: Option<NotificationLedgerSession>,
    words: String,
)
    ensures
        payload_path.len() == 0 ==> ledger_outcome(payload_path, Ok(payload), live) == Err::<
            Seq<char>,
            NotifyErrorView,
        >(NotifyErrorView::Usage("payload path is required"@)),
        payload_path.len() > 0 ==> ledger_outcome(
            payload_path,
            Err(PayloadError::Unreadable(words)),
            live,
        ) == Err::<Seq<char>, NotifyErrorView>(
            NotifyErrorView::LedgerWrite(
                "failed to read payload "@ + payload_path + ": "@ + words@,
            ),
        ),
        payload_path.len() > 0 ==> ledger_outcome(
            payload_path,
            Err(PayloadError::Malformed(words)),
            live,
        ) == Err::<Seq<char>, NotifyErrorView>(NotifyErrorView::Json(words@)),
        payload_path.len() > 0 && payload.tmux is None && live is None ==> ledger_outcome(
            payload_path,
            Ok(payload),
            live,
        ) == Err::<Seq<char>, NotifyErrorView>(
            NotifyErrorView::Usage(
                "notify requires tmux context in payload or tmux environment"@,
            ),
        ),
        payload_path.len() > 0 && (payload.tmux is Some || live is Some) ==> ledger_outcome(
            payload_path,
            Ok(payload),
            live,
        ) == Ok::<Seq<char>, NotifyErrorView>(
            ledger_line_of(record_of(payload, merged_context(payload.tmux, live))),
        ),
{
}

/// A record makes its window recent if and only if it is one of a notification, tells the session
/// and the window, and is at most two minutes old and not in the future.
pub proof fn law_fresh_record_makes_its_window_recent(record: RecordView, now: int)
    ensures
        ({
            let at = record.timestamp * 1_000_000;
            let fresh = record.kind == "system-notification"@ && record.session.session_name is Some
                && record.session.window_id is Some && at <= now <= at + 120_000_000_000;
            &&& recent_window_of(record, now) is Some == fresh
            &&& recent_window_of(record, now) matches Some(found) ==> found.0 == (WindowView {
                session_name: record.session.session_name->0,
                window_id: record.session.window_id->0,
            }) && found.1 == at
        }),
{
}

/// The windows of more records come after those of the records before them, and take none of
/// them away.
pub proof fn law_windows_are_listed_in_the_order_of_records(
    records: Seq<RecordView>,
    more: Seq<RecordView>,
    record: RecordView,
    now: int,
)
    ensures
        recent_windows_of(records + more, now) == recent_windows_of(records, now)
            + recent_windows_of(more, now),
        recent_windows_of(seq![record], now) == match recent_window_of(record, now) {
            Some(window) => seq![window],
            None => Seq::empty(),
        },
    decreases more.len(),
{
    let single = seq![record];
    assert(single.drop_last() =~= Seq::empty());
    assert(recent_windows_of(Seq::empty(), now) =~= Seq::empty());
    assert(recent_windows_of(single, now) =~= match recent_window_of(record, now) {
        Some(window) => seq![window],
        None => Seq::empty(),
    });
    if more.len() == 0 {
        assert(records + more =~= records);
        assert(recent_windows_of(records + more, now) =~= recent_windows_of(records, now)
            + recent_windows_of(more, now));
    } else {
        assert((records + more).drop_last() =~= records + more.drop_last());
        law_windows_are_listed_in_the_order_of_records(records, more.drop_last(), record, now);
        assert(recent_windows_of(records + more, now) =~= recent_windows_of(records, now)
            + recent_windows_of(more, now));
    }
}

/// Where every line of the ledger is a record, all of them are read, each as it is and in order.
pub proof fn law_every_record_is_read(lines: Seq<Option<NotificationLedgerRecord>>)
    requires
        forall|i: int| 0 <= i < lines.len() ==> (#[trigger] lines[i]) is Some,
    ensures
        records_of(lines).len() == lines.len(),
        forall|i: int|
            0 <= i < lines.len() ==> #[trigger] records_of(lines)[i] == lines[i]->0@,
    decreases lines.len(),
{
    if lines.len() > 0 {
        let shorter = lines.drop_last();
        assert forall|i: int| 0 <= i < shorter.len() implies (#[trigger] shorter[i]) is Some by {
            assert(shorter[i] == lines[i]);
        }
        law_every_record_is_read(shorter);
        assert(lines[lines.len() - 1] is Some);
        assert forall|i: int| 0 <= i < lines.len() implies #[trigger] records_of(lines)[i]
            == lines[i]->0@ by {
            if i < shorter.len() {
                assert(records_of(shorter)[i] == shorter[i]->0@);
            }
        }
    }
}

/// The ledger is in the cache of the home directory; without one, of where the program runs.
pub proof fn law_ledger_is_in_the_cache_of_the_home(home: Seq<char>)
    ensures
        home.len() > 0 && home.last() != '/' ==> default_ledger(Some(home)) == home.push('/')
            + ".cache/vmux/session-updates.jsonl"@,
        default_ledger(None) == seq!['.', '/'] + ".cache/vmux/session-updates.jsonl"@,
{
    reveal_strlit(".");
    let rest = ".cache/vmux/session-updates.jsonl"@;
    crate::event_log_laws::law_paths_are_joined_by_one_slash(home, rest);
    crate::event_log_laws::law_paths_are_joined_by_one_slash("."@, rest);
    assert("."@.push('/') =~= seq!['.', '/']);
}

} // verus!
