//! The ledger of notifications: what is written to it, and which windows it makes recent.

use crate::event_log::{home_or_here, path_below, path_in_home};
use crate::json::{
    is_printable, json_text, lemma_json_text_is_printable, lemma_object_is_printable, object_text,
    quote, raw_views, write_object,
};
use crate::lines::text_from_utf8;
use crate::panes::{is_within, Timestamp};
use crate::recent_activity::{PayloadError, RECENT_ACTIVITY_TTL};
use crate::recent_laws::lemma_numeral_is_printable;
use crate::text::{
    chars_of, join, numeral, numeral_of, option_view, parse_signed, parse_unsigned, push_text,
    same_text, signed_of, split, split_on, str_view, trim, trim_of, unsigned_of, views_of,
};
use crate::tmux::{CommandOutput, CommandView, TmuxBellWindow, TmuxCommand, WindowView};
use vstd::prelude::*;
use vstd::utf8::{decode_utf8, valid_utf8};

verus! {

#[derive(Debug, PartialEq, Eq)]
pub enum NotifyError {
    Usage(String),
    /// What the system says about a file that could not be written.
    Io(String),
    /// What is wrong with a payload.
    Json(String),
    LedgerWrite(String),
}

pub enum NotifyErrorView {
    Usage(Seq<char>),
    Io(Seq<char>),
    Json(Seq<char>),
    LedgerWrite(Seq<char>),
}

impl View for NotifyError {
    type V = NotifyErrorView;

    open spec fn view(&self) -> NotifyErrorView {
        match *self {
            NotifyError::Usage(words) => NotifyErrorView::Usage(words@),
            NotifyError::Io(words) => NotifyErrorView::Io(words@),
            NotifyError::Json(words) => NotifyErrorView::Json(words@),
            NotifyError::LedgerWrite(words) => NotifyErrorView::LedgerWrite(words@),
        }
    }
}

impl NotifyErrorView {
    /// The error in words.
    pub open spec fn message(self) -> Seq<char> {
        match self {
            NotifyErrorView::Usage(words) => "notify usage error: "@ + words,
            NotifyErrorView::Io(words) => "notify io error: "@ + words,
            NotifyErrorView::Json(words) => "notify payload parse error: "@ + words,
            NotifyErrorView::LedgerWrite(words) => "notify ledger error: "@ + words,
        }
    }
}

impl NotifyError {
    /// The error in words.
    pub fn message(&self) -> (message: String)
        ensures
            message@ == self@.message(),
    {
        match self {
            NotifyError::Usage(words) => join("notify usage error: ", words.as_str()),
            NotifyError::Io(words) => join("notify io error: ", words.as_str()),
            NotifyError::Json(words) => join("notify payload parse error: ", words.as_str()),
            NotifyError::LedgerWrite(words) => join("notify ledger error: ", words.as_str()),
        }
    }
}

#[derive(Clone, Debug, PartialEq, Eq)]
pub struct NotificationTerminal {
    pub bundle_id: Option<String>,
}

/// Where in tmux a notification comes from, as its sender says.
#[derive(Debug, PartialEq, Eq)]
pub struct NotificationTmuxContext {
    pub session_name: String,
    pub window_id: String,
    pub window_index: i32,
    pub window_name: String,
    pub pane_id: String,
    pub client_name: String,
    pub client_pid: Option<u32>,
}

impl Clone for NotificationTmuxContext {
    fn clone(&self) -> (copy: Self)
        ensures
            copy == *self,
    {
        NotificationTmuxContext {
            session_name: self.session_name.clone(),
            window_id: self.window_id.clone(),
            window_index: self.window_index,
            window_name: self.window_name.clone(),
            pane_id: self.pane_id.clone(),
            client_name: self.client_name.clone(),
            client_pid: self.client_pid,
        }
    }
}

#[derive(Clone, Debug, PartialEq, Eq)]
pub struct NotificationPayloadV1 {
    pub version: u8,
    pub title: String,
    pub subtitle: String,
    pub body: String,
    pub latest_assistant_message: String,
    pub platform: String,
    /// Milliseconds since the epoch.
    pub timestamp: u64,
    pub cwd: String,
    pub terminal: NotificationTerminal,
    pub tmux: Option<NotificationTmuxContext>,
}

/// Where in tmux a notification comes from, as far as it is known.
#[derive(Clone, Debug, PartialEq, Eq)]
pub struct NotificationLedgerSession {
    pub session_id: Option<String>,
    pub session_name: Option<String>,
    pub window_id: Option<String>,
    pub window_index: Option<i32>,
    pub window_name: Option<String>,
    pub pane_id: Option<String>,
    pub client_name: Option<String>,
    pub client_pid: Option<u32>,
}

pub struct LedgerSessionView {
    pub session_id: Option<Seq<char>>,
    pub session_name: Option<Seq<char>>,
    pub window_id: Option<Seq<char>>,
    pub window_index: Option<i32>,
    pub window_name: Option<Seq<char>>,
    pub pane_id: Option<Seq<char>>,
    pub client_name: Option<Seq<char>>,
    pub client_pid: Option<u32>,
}

impl View for NotificationLedgerSession {
    type V = LedgerSessionView;

    open spec fn view(&self) -> LedgerSessionView {
        LedgerSessionView {
            session_id: option_view(self.session_id),
            session_name: option_view(self.session_name),
            window_id: option_view(self.window_id),
            window_index: self.window_index,
            window_name: option_view(self.window_name),
            pane_id: option_view(self.pane_id),
            client_name: option_view(self.client_name),
            client_pid: self.client_pid,
        }
    }
}

/// One line of the ledger.
#[derive(Clone, Debug, PartialEq, Eq)]
pub struct NotificationLedgerRecord {
    pub version: u8,
    pub kind: String,
    pub source: String,
    /// Milliseconds since the epoch.
    pub timestamp: u64,
    pub title: String,
    pub subtitle: String,
    pub body: String,
    pub latest_assistant_message: String,
    pub cwd: String,
    pub platform: Option<String>,
    pub terminal_bundle_id: Option<String>,
    pub session: NotificationLedgerSession,
}

pub struct RecordView {
    pub version: u8,
    pub kind: Seq<char>,
    pub source: Seq<char>,
    pub timestamp: u64,
    pub title: Seq<char>,
    pub subtitle: Seq<char>,
    pub body: Seq<char>,
    pub latest_assistant_message: Seq<char>,
    pub cwd: Seq<char>,
    pub platform: Option<Seq<char>>,
    pub terminal_bundle_id: Option<Seq<char>>,
    pub session: LedgerSessionView,
}

impl View for NotificationLedgerRecord {
    type V = RecordView;

    open spec fn view(&self) -> RecordView {
        RecordView {
            version: self.version,
            kind: self.kind@,
            source: self.source@,
            timestamp: self.timestamp,
            title: self.title@,
            subtitle: self.subtitle@,
            body: self.body@,
            latest_assistant_message: self.latest_assistant_message@,
            cwd: self.cwd@,
            platform: option_view(self.platform),
            terminal_bundle_id: option_view(self.terminal_bundle_id),
            session: self.session@,
        }
    }
}

/// Where the ledger is by default.
pub open spec fn default_ledger(home: Option<Seq<char>>) -> Seq<char> {
    path_below(home_or_here(home), ".cache/vmux/session-updates.jsonl"@)
}

/// Where the ledger is by default, given the value of `HOME`.
pub fn default_ledger_path(home: Option<&str>) -> (path: String)
    ensures
        path@ == default_ledger(str_view(home)),
{
    path_in_home(home, ".cache/vmux/session-updates.jsonl")
}

/// Where the ledger is, given the values of `VMUX_NOTIFY_LEDGER_PATH` and `HOME`.
pub fn ledger_path_from_env(ledger_path: Option<&str>, home: Option<&str>) -> (path: String)
    ensures
        path@ == match ledger_path {
            Some(ledger_path) => ledger_path@,
            None => default_ledger(str_view(home)),
        },
{
    match ledger_path {
        Some(ledger_path) => ledger_path.to_owned(),
        None => default_ledger_path(home),
    }
}

/// How the tmux server is found.
#[derive(Clone, Debug, PartialEq, Eq)]
pub enum TmuxSocketSpec {
    Named(String),
    Path(String),
}

pub enum SocketView {
    Named(Seq<char>),
    Path(Seq<char>),
}

impl View for TmuxSocketSpec {
    type V = SocketView;

    open spec fn view(&self) -> SocketView {
        match *self {
            TmuxSocketSpec::Named(name) => SocketView::Named(name@),
            TmuxSocketSpec::Path(path) => SocketView::Path(path@),
        }
    }
}

/// The socket that the environment names: by `VMUX_TMUX_SOCKET`, or else by the first field of
/// `TMUX`. White space around a name does not count, and a blank name is none.
pub open spec fn socket_of(vmux_socket: Option<Seq<char>>, tmux: Option<Seq<char>>) -> Option<
    SocketView,
> {
    let named = match vmux_socket {
        Some(name) => trim_of(name),
        None => Seq::empty(),
    };
    let path = match tmux {
        Some(tmux) => trim_of(split_on(tmux, ',')[0]),
        None => Seq::empty(),
    };
    if named.len() > 0 {
        Some(SocketView::Named(named))
    } else if path.len() > 0 {
        Some(SocketView::Path(path))
    } else {
        None
    }
}

pub open spec fn socket_view(socket: Option<TmuxSocketSpec>) -> Option<SocketView> {
    match socket {
        Some(socket) => Some(socket@),
        None => None,
    }
}

/// Finds the socket, given the values of `VMUX_TMUX_SOCKET` and `TMUX`.
pub fn tmux_socket_spec_from_env(vmux_socket: Option<&str>, tmux: Option<&str>) -> (socket: Option<
    TmuxSocketSpec,
>)
    ensures
        socket_view(socket) == socket_of(str_view(vmux_socket), str_view(tmux)),
{
    match vmux_socket {
        Some(name) => {
            let trimmed = trim(name);
            if trimmed.as_str().unicode_len() > 0 {
                return Some(TmuxSocketSpec::Named(trimmed));
            }
        },
        None => {},
    }
    match tmux {
        Some(tmux) => {
            let fields = split(tmux, ',');
            proof {
                crate::text::lemma_split_not_empty(tmux@, ',');
                assert(views_of(fields@)[0] == fields@[0]@);
            }
            let path = trim(fields[0].as_str());
            if path.as_str().unicode_len() > 0 {
                Some(TmuxSocketSpec::Path(path))
            } else {
                None
            }
        },
        None => None,
    }
}

/// What tmux is to tell of where a notification comes from, with tabs between.
pub open spec fn context_format() -> Seq<char> {
    "#{session_id}\t#{session_name}\t#{window_id}\t#{window_index}\t#{window_name}\t#{pane_id}\t#{client_name}\t#{client_pid}"@
}

/// The command that asks tmux where a notification comes from. A blank pane is none.
pub open spec fn context_command_of(socket: SocketView, pane: Option<Seq<char>>) -> CommandView {
    let server = match socket {
        SocketView::Named(name) => seq!["-L"@, name],
        SocketView::Path(path) => seq!["-S"@, path],
    };
    let target = match pane {
        Some(pane) => if trim_of(pane).len() > 0 {
            seq!["-t"@, trim_of(pane)]
        } else {
            Seq::empty()
        },
        None => Seq::empty(),
    };
    CommandView {
        program: "tmux"@,
        args: server + seq!["display-message"@, "-p"@] + target + seq!["-F"@, context_format()],
    }
}

/// The command that asks tmux where a notification comes from, given the value of `TMUX_PANE`.
pub fn live_context_command(socket: &TmuxSocketSpec, pane: Option<&str>) -> (command: TmuxCommand)
    ensures
        command@ == context_command_of(socket@, str_view(pane)),
{
    let mut args: Vec<String> = Vec::new();
    match socket {
        TmuxSocketSpec::Named(name) => {
            push_text(&mut args, "-L");
            push_text(&mut args, name.as_str());
        },
        TmuxSocketSpec::Path(path) => {
            push_text(&mut args, "-S");
            push_text(&mut args, path.as_str());
        },
    }
    push_text(&mut args, "display-message");
    push_text(&mut args, "-p");
    match pane {
        Some(pane) => {
            let trimmed = trim(pane);
            if trimmed.as_str().unicode_len() > 0 {
                push_text(&mut args, "-t");
                push_text(&mut args, trimmed.as_str());
            }
        },
        None => {},
    }
    push_text(&mut args, "-F");
    push_text(
        &mut args,
        "#{session_id}\t#{session_name}\t#{window_id}\t#{window_index}\t#{window_name}\t#{pane_id}\t#{client_name}\t#{client_pid}",
    );
    assert(views_of(args@) =~= context_command_of(socket@, str_view(pane)).args);
    TmuxCommand { program: "tmux".to_owned(), args }
}

/// A text without the line ends that it ends with.
pub open spec fn without_line_ends(s: Seq<char>) -> Seq<char>
    decreases s.len(),
{
    if s.len() > 0 && (s.last() == '\r' || s.last() == '\n') {
        without_line_ends(s.drop_last())
    } else {
        s
    }
}

fn trim_line_ends(s: &str) -> (trimmed: String)
    ensures
        trimmed@ == without_line_ends(s@),
{
    let chars = chars_of(s);
    let mut end: usize = chars.len();
    assert(s@.take(end as int) =~= s@);
    while end > 0 && (chars[end - 1] == '\r' || chars[end - 1] == '\n')
        invariant
            end <= chars@.len(),
            chars@ == s@,
            without_line_ends(s@) == without_line_ends(s@.take(end as int)),
        decreases end,
    {
        assert(s@.take(end as int).drop_last() =~= s@.take(end - 1));
        end = end - 1;
    }
    assert(without_line_ends(s@.take(end as int)) == s@.take(end as int));
    s.substring_char(0, end).to_owned()
}

/// What tmux says of where a notification comes from. A number that cannot be read is left out,
/// and with fewer fields than were asked for nothing is known.
pub open spec fn context_of(text: Seq<char>) -> Option<LedgerSessionView> {
    let fields = split_on(without_line_ends(text), '\t');
    if fields.len() < 8 {
        None
    } else {
        Some(
            LedgerSessionView {
                session_id: Some(fields[0]),
                session_name: Some(fields[1]),
                window_id: Some(fields[2]),
                window_index: match signed_of(fields[3]) {
                    Some(index) => Some(index as i32),
                    None => None,
                },
                window_name: Some(fields[4]),
                pane_id: Some(fields[5]),
                client_name: Some(fields[6]),
                client_pid: match unsigned_of(fields[7], u32::MAX as nat) {
                    Some(pid) => Some(pid as u32),
                    None => None,
                },
            },
        )
    }
}

pub open spec fn ledger_session_view(session: Option<NotificationLedgerSession>) -> Option<
    LedgerSessionView,
> {
    match session {
        Some(session) => Some(session@),
        None => None,
    }
}

/// Reads what tmux says of where a notification comes from.
pub fn context_from_text(text: &str) -> (context: Option<NotificationLedgerSession>)
    ensures
        ledger_session_view(context) == context_of(text@),
{
    let raw = trim_line_ends(text);
    let fields = split(raw.as_str(), '\t');
    let ghost expected = split_on(raw@, '\t');
    assert(fields@.len() == expected.len());
    if fields.len() < 8 {
        return None;
    }
    assert forall|i: int| 0 <= i < 8 implies expected[i] == (#[trigger] fields@[i])@ by {}
    let window_index: Option<i32> = parse_signed(fields[3].as_str());
    let client_pid: Option<u32> = match parse_unsigned(fields[7].as_str(), u32::MAX as u64) {
        Some(pid) => Some(pid as u32),
        None => None,
    };
    Some(
        NotificationLedgerSession {
            session_id: Some(fields[0].clone()),
            session_name: Some(fields[1].clone()),
            window_id: Some(fields[2].clone()),
            window_index,
            window_name: Some(fields[4].clone()),
            pane_id: Some(fields[5].clone()),
            client_name: Some(fields[6].clone()),
            client_pid,
        },
    )
}

/// What a run of the command that asks tmux tells, if it could be run.
pub fn live_context_from_output(output: Option<CommandOutput>) -> (context: Option<
    NotificationLedgerSession,
>)
    ensures
        ledger_session_view(context) == match output {
            Some(output) => if output.success && valid_utf8(output.stdout@) {
                context_of(decode_utf8(output.stdout@))
            } else {
                None
            },
            None => None,
        },
{
    match output {
        Some(output) => {
            if !output.success {
                return None;
            }
            match text_from_utf8(output.stdout) {
                Ok(text) => context_from_text(text.as_str()),
                Err(_) => None,
            }
        },
        None => None,
    }
}

/// Where a notification comes from: as tmux says, or else as its sender says, or unknown.
pub open spec fn merged_context(
    payload_tmux: Option<NotificationTmuxContext>,
    live_tmux: Option<NotificationLedgerSession>,
) -> LedgerSessionView {
    match (live_tmux, payload_tmux) {
        (Some(live), _) => live@,
        (None, Some(tmux)) => LedgerSessionView {
            session_id: None,
            session_name: Some(tmux.session_name@),
            window_id: Some(tmux.window_id@),
            window_index: Some(tmux.window_index),
            window_name: Some(tmux.window_name@),
            pane_id: Some(tmux.pane_id@),
            client_name: Some(tmux.client_name@),
            client_pid: tmux.client_pid,
        },
        (None, None) => LedgerSessionView {
            session_id: None,
            session_name: None,
            window_id: None,
            window_index: None,
            window_name: None,
            pane_id: None,
            client_name: None,
            client_pid: None,
        },
    }
}

/// Chooses where a notification comes from.
pub fn merge_tmux_context(
    payload_tmux: Option<NotificationTmuxContext>,
    live_tmux: Option<NotificationLedgerSession>,
) -> (session: NotificationLedgerSession)
    ensures
        session@ == merged_context(payload_tmux, live_tmux),
{
    match live_tmux {
        Some(live) => live,
        None => match payload_tmux {
            Some(tmux) => NotificationLedgerSession {
                session_id: None,
                session_name: Some(tmux.session_name),
                window_id: Some(tmux.window_id),
                window_index: Some(tmux.window_index),
                window_name: Some(tmux.window_name),
                pane_id: Some(tmux.pane_id),
                client_name: Some(tmux.client_name),
                client_pid: tmux.client_pid,
            },
            None => NotificationLedgerSession {
                session_id: None,
                session_name: None,
                window_id: None,
                window_index: None,
                window_name: None,
                pane_id: None,
                client_name: None,
                client_pid: None,
            },
        },
    }
}

/// The record of a notification.
pub open spec fn record_of(
    payload: NotificationPayloadV1,
    session: LedgerSessionView,
) -> RecordView {
    RecordView {
        version: payload.version,
        kind: "system-notification"@,
        source: "vmux"@,
        timestamp: payload.timestamp,
        title: payload.title@,
        subtitle: payload.subtitle@,
        body: payload.body@,
        latest_assistant_message: payload.latest_assistant_message@,
        cwd: payload.cwd@,
        platform: Some(payload.platform@),
        terminal_bundle_id: option_view(payload.terminal.bundle_id),
        session,
    }
}

/// Makes the record of a notification.
pub fn ledger_record_from_payload(
    payload: NotificationPayloadV1,
    session: NotificationLedgerSession,
) -> (record: NotificationLedgerRecord)
    ensures
        record@ == record_of(payload, session@),
{
    NotificationLedgerRecord {
        version: payload.version,
        kind: "system-notification".to_owned(),
        source: "vmux".to_owned(),
        timestamp: payload.timestamp,
        title: payload.title,
        subtitle: payload.subtitle,
        body: payload.body,
        latest_assistant_message: payload.latest_assistant_message,
        cwd: payload.cwd,
        platform: Some(payload.platform),
        terminal_bundle_id: payload.terminal.bundle_id,
        session,
    }
}

/// The JSON of a text that may be missing.
pub open spec fn optional_text(text: Option<Seq<char>>) -> Seq<char> {
    match text {
        Some(text) => json_text(text),
        None => "null"@,
    }
}

/// A whole number in digits.
pub open spec fn signed_numeral(n: int) -> Seq<char> {
    if n < 0 {
        seq!['-'] + numeral_of((-n) as nat)
    } else {
        numeral_of(n as nat)
    }
}

pub open spec fn optional_index(index: Option<i32>) -> Seq<char> {
    match index {
        Some(index) => signed_numeral(index as int),
        None => "null"@,
    }
}

pub open spec fn optional_pid(pid: Option<u32>) -> Seq<char> {
    match pid {
        Some(pid) => numeral_of(pid as nat),
        None => "null"@,
    }
}

pub open spec fn session_members(session: LedgerSessionView) -> Seq<(Seq<char>, Seq<char>)> {
    seq![
        ("sessionId"@, optional_text(session.session_id)),
        ("sessionName"@, optional_text(session.session_name)),
        ("windowId"@, optional_text(session.window_id)),
        ("windowIndex"@, optional_index(session.window_index)),
        ("windowName"@, optional_text(session.window_name)),
        ("paneId"@, optional_text(session.pane_id)),
        ("clientName"@, optional_text(session.client_name)),
        ("clientPid"@, optional_pid(session.client_pid)),
    ]
}

pub open spec fn record_members(record: RecordView) -> Seq<(Seq<char>, Seq<char>)> {
    seq![
        ("version"@, numeral_of(record.version as nat)),
        ("kind"@, json_text(record.kind)),
        ("source"@, json_text(record.source)),
        ("timestamp"@, numeral_of(record.timestamp as nat)),
        ("title"@, json_text(record.title)),
        ("subtitle"@, json_text(record.subtitle)),
        ("body"@, json_text(record.body)),
        ("latestAssistantMessage"@, json_text(record.latest_assistant_message)),
        ("cwd"@, json_text(record.cwd)),
        ("platform"@, optional_text(record.platform)),
        ("terminalBundleId"@, optional_text(record.terminal_bundle_id)),
        ("session"@, object_text(session_members(record.session))),
    ]
}

/// The line of a record in the ledger.
pub open spec fn ledger_line_of(record: RecordView) -> Seq<char> {
    object_text(record_members(record))
}

fn push_member(members: &mut Vec<(String, String)>, name: &str, value: String)
    ensures
        raw_views(final(members)@) == raw_views(old(members)@).push((name@, value@)),
{
    members.push((name.to_owned(), value));
    assert(raw_views(members@) =~= raw_views(old(members)@).push((name@, value@)));
}

fn write_optional_text(text: &Option<String>) -> (written: String)
    ensures
        written@ == optional_text(option_view(*text)),
{
    match text {
        Some(text) => quote(text.as_str()),
        None => "null".to_owned(),
    }
}

fn write_optional_index(index: Option<i32>) -> (written: String)
    ensures
        written@ == optional_index(index),
{
    match index {
        Some(index) => {
            if index < 0 {
                proof {
                    reveal_strlit("-");
                    assert("-"@ =~= seq!['-']);
                }
                let digits = numeral((-(index as i64)) as u128);
                join("-", digits.as_str())
            } else {
                numeral(index as u128)
            }
        },
        None => "null".to_owned(),
    }
}

fn write_optional_pid(pid: Option<u32>) -> (written: String)
    ensures
        written@ == optional_pid(pid),
{
    match pid {
        Some(pid) => numeral(pid as u128),
        None => "null".to_owned(),
    }
}

fn write_session(session: &NotificationLedgerSession) -> (text: String)
    ensures
        text@ == object_text(session_members(session@)),
{
    let mut members: Vec<(String, String)> = Vec::new();
    push_member(&mut members, "sessionId", write_optional_text(&session.session_id));
    push_member(&mut members, "sessionName", write_optional_text(&session.session_name));
    push_member(&mut members, "windowId", write_optional_text(&session.window_id));
    push_member(&mut members, "windowIndex", write_optional_index(session.window_index));
    push_member(&mut members, "windowName", write_optional_text(&session.window_name));
    push_member(&mut members, "paneId", write_optional_text(&session.pane_id));
    push_member(&mut members, "clientName", write_optional_text(&session.client_name));
    push_member(&mut members, "clientPid", write_optional_pid(session.client_pid));
    assert(raw_views(members@) =~= session_members(session@));
    write_object(&members)
}

/// Writes the line of a record in the ledger.
pub fn ledger_line(record: &NotificationLedgerRecord) -> (line: String)
    ensures
        line@ == ledger_line_of(record@),
{
    let mut members: Vec<(String, String)> = Vec::new();
    push_member(&mut members, "version", numeral(record.version as u128));
    push_member(&mut members, "kind", quote(record.kind.as_str()));
    push_member(&mut members, "source", quote(record.source.as_str()));
    push_member(&mut members, "timestamp", numeral(record.timestamp as u128));
    push_member(&mut members, "title", quote(record.title.as_str()));
    push_member(&mut members, "subtitle", quote(record.subtitle.as_str()));
    push_member(&mut members, "body", quote(record.body.as_str()));
    push_member(
        &mut members,
        "latestAssistantMessage",
        quote(record.latest_assistant_message.as_str()),
    );
    push_member(&mut members, "cwd", quote(record.cwd.as_str()));
    push_member(&mut members, "platform", write_optional_text(&record.platform));
    push_member(&mut members, "terminalBundleId", write_optional_text(&record.terminal_bundle_id));
    push_member(&mut members, "session", write_session(&record.session));
    assert(raw_views(members@) =~= record_members(record@));
    write_object(&members)
}

/// The line that a notification adds to the ledger, or why it adds none.
pub open spec fn ledger_outcome(
    payload_path: Seq<char>,
    payload: Result<NotificationPayloadV1, PayloadError>,
    live_tmux: Option<NotificationLedgerSession>,
) -> Result<Seq<char>, NotifyErrorView> {
    if payload_path.len() == 0 {
        Err(NotifyErrorView::Usage("payload path is required"@))
    } else {
        match payload {
            Err(PayloadError::Unreadable(words)) => Err(
                NotifyErrorView::LedgerWrite(
                    "failed to read payload "@ + payload_path + ": "@ + words@,
                ),
            ),
            Err(PayloadError::Malformed(words)) => Err(NotifyErrorView::Json(words@)),
            Ok(payload) => if payload.tmux is None && live_tmux is None {
                Err(
                    NotifyErrorView::Usage(
                        "notify requires tmux context in payload or tmux environment"@,
                    ),
                )
            } else {
                Ok(ledger_line_of(record_of(payload, merged_context(payload.tmux, live_tmux))))
            },
        }
    }
}

/// Makes the line that a notification adds to the ledger.
pub fn run_notify(
    payload_path: &str,
    payload: Result<NotificationPayloadV1, PayloadError>,
    live_tmux: Option<NotificationLedgerSession>,
) -> (line: Result<String, NotifyError>)
    ensures
        match ledger_outcome(payload_path@, payload, live_tmux) {
            Ok(expected) => line matches Ok(line) && line@ == expected,
            Err(expected) => line matches Err(error) && error@ == expected,
        },
{
    if payload_path.unicode_len() == 0 {
        return Err(NotifyError::Usage("payload path is required".to_owned()));
    }
    let payload = match payload {
        Ok(payload) => payload,
        Err(PayloadError::Unreadable(words)) => {
            let mut message = join("failed to read payload ", payload_path);
            message.append(": ");
            message.append(words.as_str());
            return Err(NotifyError::LedgerWrite(message));
        },
        Err(PayloadError::Malformed(words)) => {
            return Err(NotifyError::Json(words));
        },
    };
    if payload.tmux.is_none() && live_tmux.is_none() {
        return Err(
            NotifyError::Usage(
                "notify requires tmux context in payload or tmux environment".to_owned(),
            ),
        );
    }
    let session = merge_tmux_context(payload.tmux.clone(), live_tmux);
    let record = ledger_record_from_payload(payload, session);
    Ok(ledger_line(&record))
}

/// Makes the error for a ledger that could not be opened.
pub fn ledger_open_error(path: &str, words: &str) -> (error: NotifyError)
    ensures
        error@ == NotifyErrorView::LedgerWrite("failed to open "@ + path@ + ": "@ + words@),
{
    let mut message = join("failed to open ", path);
    message.append(": ");
    message.append(words);
    NotifyError::LedgerWrite(message)
}

/// The window that a record makes recent, with the time in nanoseconds, if it is one of a
/// notification, tells the window, and is neither older than a while nor in the future.
pub open spec fn recent_window_of(record: RecordView, now: int) -> Option<(WindowView, int)> {
    let at = record.timestamp * 1_000_000;
    match (record.session.session_name, record.session.window_id) {
        (Some(session_name), Some(window_id)) => if record.kind == "system-notification"@ && at
            <= now <= at + RECENT_ACTIVITY_TTL {
            Some((WindowView { session_name, window_id }, at))
        } else {
            None
        },
        _ => None,
    }
}

/// The windows that records make recent, in the order of the records.
pub open spec fn recent_windows_of(records: Seq<RecordView>, now: int) -> Seq<(WindowView, int)>
    decreases records.len(),
{
    if records.len() == 0 {
        Seq::empty()
    } else {
        let before = recent_windows_of(records.drop_last(), now);
        match recent_window_of(records.last(), now) {
            Some(window) => before.push(window),
            None => before,
        }
    }
}

/// The records of the ledger, given what each line of it is: a line that is no record is left
/// out.
pub open spec fn records_of(lines: Seq<Option<NotificationLedgerRecord>>) -> Seq<RecordView>
    decreases lines.len(),
{
    if lines.len() == 0 {
        Seq::empty()
    } else {
        match lines.last() {
            Some(record) => records_of(lines.drop_last()).push(record@),
            None => records_of(lines.drop_last()),
        }
    }
}

pub open spec fn timed_views(windows: Seq<(TmuxBellWindow, Timestamp)>) -> Seq<(WindowView, int)> {
    windows.map_values(
        |window: (TmuxBellWindow, Timestamp)| (window.0@, window.1.nanos as int),
    )
}

fn read_recent_window(record: &NotificationLedgerRecord, now: Timestamp) -> (window: Option<
    (TmuxBellWindow, Timestamp),
>)
    ensures
        match recent_window_of(record@, now.nanos as int) {
            Some(expected) => window matches Some(window) && (window.0@, window.1.nanos as int)
                == expected,
            None => window is None,
        },
{
    if !same_text(record.kind.as_str(), "system-notification") {
        return None;
    }
    match (&record.session.session_name, &record.session.window_id) {
        (Some(session_name), Some(window_id)) => {
            let at = Timestamp::from_millis(record.timestamp);
            if is_within(at, now, RECENT_ACTIVITY_TTL) {
                Some(
                    (
                        TmuxBellWindow {
                            session_name: session_name.clone(),
                            window_id: window_id.clone(),
                        },
                        at,
                    ),
                )
            } else {
                None
            }
        },
        _ => None,
    }
}

/// The windows that the records of the ledger make recent, in their order, given what each line
/// of the ledger is. Lines that are no records are passed over.
pub fn load_recent_activity_windows(
    lines: &Vec<Option<NotificationLedgerRecord>>,
    now: Timestamp,
) -> (windows: Vec<(TmuxBellWindow, Timestamp)>)
    ensures
        timed_views(windows@) == recent_windows_of(records_of(lines@), now.nanos as int),
{
    let ghost all = lines@;
    let mut windows: Vec<(TmuxBellWindow, Timestamp)> = Vec::new();
    let mut i: usize = 0;
    assert(timed_views(windows@) =~= recent_windows_of(records_of(all.take(0)), now.nanos as int));
    while i < lines.len()
        invariant
            i <= lines@.len(),
            all == lines@,
            timed_views(windows@) == recent_windows_of(
                records_of(all.take(i as int)),
                now.nanos as int,
            ),
        decreases lines@.len() - i,
    {
        let ghost before = timed_views(windows@);
        assert(all.take(i + 1).drop_last() =~= all.take(i as int));
        assert(all.take(i + 1).last() == all[i as int]);
        if let Some(record) = &lines[i] {
            let ghost records = records_of(all.take(i as int));
            assert(records.push(record@).drop_last() =~= records);
            if let Some(window) = read_recent_window(record, now) {
                let ghost view = (window.0@, window.1.nanos as int);
                windows.push(window);
                assert(timed_views(windows@) =~= before.push(view));
            }
        }
        i = i + 1;
    }
    assert(all.take(i as int) =~= all);
    windows
}

proof fn lemma_optional_text_is_printable(text: Option<Seq<char>>)
    ensures
        is_printable(optional_text(text)),
{
    match text {
        Some(text) => {
            lemma_json_text_is_printable(text);
        },
        None => {
            reveal_strlit("null");
        },
    }
}

proof fn lemma_session_is_printable(session: LedgerSessionView)
    ensures
        is_printable(object_text(session_members(session))),
{
    reveal_strlit("null");
    lemma_optional_text_is_printable(session.session_id);
    lemma_optional_text_is_printable(session.session_name);
    lemma_optional_text_is_printable(session.window_id);
    lemma_optional_text_is_printable(session.window_name);
    lemma_optional_text_is_printable(session.pane_id);
    lemma_optional_text_is_printable(session.client_name);
    match session.window_index {
        Some(index) => {
            if index < 0 {
                lemma_numeral_is_printable((-index) as nat);
            } else {
                lemma_numeral_is_printable(index as nat);
            }
        },
        None => {},
    }
    match session.client_pid {
        Some(pid) => {
            lemma_numeral_is_printable(pid as nat);
        },
        None => {},
    }
    lemma_object_is_printable(session_members(session));
}

/// A record takes one line of the ledger: it has no line breaks, and no other control
/// characters.
pub proof fn law_record_takes_one_line(record: RecordView)
    ensures
        is_printable(ledger_line_of(record)),
        !ledger_line_of(record).contains('\n'),
{
    lemma_numeral_is_printable(record.version as nat);
    lemma_json_text_is_printable(record.kind);
    lemma_json_text_is_printable(record.source);
    lemma_numeral_is_printable(record.timestamp as nat);
    lemma_json_text_is_printable(record.title);
    lemma_json_text_is_printable(record.subtitle);
    lemma_json_text_is_printable(record.body);
    lemma_json_text_is_printable(record.latest_assistant_message);
    lemma_json_text_is_printable(record.cwd);
    lemma_optional_text_is_printable(record.platform);
    lemma_optional_text_is_printable(record.terminal_bundle_id);
    lemma_session_is_printable(record.session);
    lemma_object_is_printable(record_members(record));
}

/// A line of the ledger that is no record is as good as not there, wherever it stands.
pub proof fn law_line_without_record_is_ignored(
    before: Seq<Option<NotificationLedgerRecord>>,
    after: Seq<Option<NotificationLedgerRecord>>,
)
    ensures
        records_of(before.push(None) + after) == records_of(before + after),
    decreases after.len(),
{
    let with = before.push(None) + after;
    if after.len() == 0 {
        assert(with =~= before.push(None));
        assert(with.drop_last() =~= before);
        assert(before + after =~= before);
    } else {
        assert(with.drop_last() =~= before.push(None) + after.drop_last());
        assert((before + after).drop_last() =~= before + after.drop_last());
        law_line_without_record_is_ignored(before, after.drop_last());
    }
}

/// A window that is listed as recent is one that a notification named at most two minutes ago,
/// and not in the future.
pub proof fn law_listed_windows_are_recent(records: Seq<RecordView>, now: int, i: int)
    requires
        0 <= i < recent_windows_of(records, now).len(),
    ensures
        ({
            let (window, at) = recent_windows_of(records, now)[i];
            &&& at <= now <= at + 120_000_000_000
            &&& exists|k: int|
                0 <= k < records.len() && (#[trigger] records[k]).session.session_name == Some(
                    window.session_name,
                ) && records[k].session.window_id == Some(window.window_id)
                    && records[k].timestamp * 1_000_000 == at
        }),
    decreases records.len(),
{
    let shorter = records.drop_last();
    let before = recent_windows_of(shorter, now);
    let (window, at) = recent_windows_of(records, now)[i];
    if i < before.len() {
        law_listed_windows_are_recent(shorter, now, i);
        let k = choose|k: int|
            0 <= k < shorter.len() && (#[trigger] shorter[k]).session.session_name == Some(
                window.session_name,
            ) && shorter[k].session.window_id == Some(window.window_id) && shorter[k].timestamp
                * 1_000_000 == at;
        assert(records[k] == shorter[k]);
    } else {
        assert(records[records.len() - 1] == records.last());
    }
}

} // verus!
