//! Recent-activity events, and what panes they leave.
//!
//! - the event log is append-only, one JSON object a line
//! - only `notify` and `clear` events are valid
//! - `(session_id, pane_id)` is the canonical identity
//! - what the sidebar shows is reconstructed by replaying valid events in the order of the log
//! - malformed, truncated, or unknown-version lines are ignored line by line

use crate::json::{
    field_text, fields_of, flat_fields, flat_object_text, is_flat, json_object, parse_json_object,
    quote, raw_views, write_object, JsonField, JsonFieldView, JsonFields, JsonMember,
};
use crate::lines::{byte_lines, byte_views_of, lines_in_bytes, text_from_utf8};
use crate::panes::{
    entries_where, lists_in_order, pane_views, PaneKey, PaneTable, PaneView, RecentPane, Timestamp,
};
use crate::recent_laws::{
    law_log_has_a_line_for_each_event, law_logs_of_events_are_replayed, lemma_event_line_bytes,
};
use crate::text::{
    is_blank, is_blank_line, join, numeral, push_text, same_text, trim, trim_of, views_of,
};
use vstd::prelude::*;
use vstd::utf8::{decode_utf8, encode_utf8, valid_utf8};

verus! {

/// How long an entry is recent, in nanoseconds.
pub const RECENT_ACTIVITY_TTL: u64 = 120_000_000_000;

/// Schema version of recent-activity events in the log.
pub const EVENT_LOG_VERSION: u64 = 1;

#[derive(Debug, PartialEq, Eq)]
pub enum RecentActivityError {
    Usage(String),
    /// What the system says about a file that could not be written.
    Io(String),
    /// What is wrong with a payload.
    Json(String),
    EventLogWrite(String),
}

pub enum ActivityErrorView {
    Usage(Seq<char>),
    Io(Seq<char>),
    Json(Seq<char>),
    EventLogWrite(Seq<char>),
}

impl View for RecentActivityError {
    type V = ActivityErrorView;

    open spec fn view(&self) -> ActivityErrorView {
        match *self {
            RecentActivityError::Usage(words) => ActivityErrorView::Usage(words@),
            RecentActivityError::Io(words) => ActivityErrorView::Io(words@),
            RecentActivityError::Json(words) => ActivityErrorView::Json(words@),
            RecentActivityError::EventLogWrite(words) => ActivityErrorView::EventLogWrite(words@),
        }
    }
}

impl ActivityErrorView {
    /// The error in words.
    pub open spec fn message(self) -> Seq<char> {
        match self {
            ActivityErrorView::Usage(words) => "recent activity usage error: "@ + words,
            ActivityErrorView::Io(words) => "recent activity io error: "@ + words,
            ActivityErrorView::Json(words) => "recent activity payload parse error: "@ + words,
            ActivityErrorView::EventLogWrite(words) => "recent activity event log error: "@ + words,
        }
    }
}

impl RecentActivityError {
    /// The error in words.
    pub fn message(&self) -> (message: String)
        ensures
            message@ == self@.message(),
    {
        match self {
            RecentActivityError::Usage(words) => join(
                "recent activity usage error: ",
                words.as_str(),
            ),
            RecentActivityError::Io(words) => join("recent activity io error: ", words.as_str()),
            RecentActivityError::Json(words) => join(
                "recent activity payload parse error: ",
                words.as_str(),
            ),
            RecentActivityError::EventLogWrite(words) => join(
                "recent activity event log error: ",
                words.as_str(),
            ),
        }
    }
}

/// What a caller of `vmux notify` says.
#[derive(Clone, Debug, PartialEq, Eq)]
pub struct NotifyPayload {
    pub session_id: String,
    pub pane_id: String,
    pub pane_display_text: String,
    /// Milliseconds since the epoch.
    pub notify_time: u64,
}

/// What a caller of `vmux clear` says.
#[derive(Clone, Debug, PartialEq, Eq)]
pub struct ClearPayload {
    pub session_id: String,
    pub pane_id: String,
}

/// A pane needs attention.
#[derive(Clone, Debug, PartialEq, Eq)]
pub struct NotifyEvent {
    pub session_id: String,
    pub pane_id: String,
    pub pane_display_text: String,
    /// Milliseconds since the epoch.
    pub notify_time: u64,
}

/// A pane needs no attention any more.
#[derive(Clone, Debug, PartialEq, Eq)]
pub struct ClearEvent {
    pub session_id: String,
    pub pane_id: String,
}

#[derive(Clone, Debug, PartialEq, Eq)]
pub enum RecentPaneEvent {
    Notify(NotifyEvent),
    Clear(ClearEvent),
}

pub enum EventView {
    Notify {
        session_id: Seq<char>,
        pane_id: Seq<char>,
        pane_display_text: Seq<char>,
        notify_time: u64,
    },
    Clear { session_id: Seq<char>, pane_id: Seq<char> },
}

impl View for RecentPaneEvent {
    type V = EventView;

    open spec fn view(&self) -> EventView {
        match *self {
            RecentPaneEvent::Notify(event) => EventView::Notify {
                session_id: event.session_id@,
                pane_id: event.pane_id@,
                pane_display_text: event.pane_display_text@,
                notify_time: event.notify_time,
            },
            RecentPaneEvent::Clear(event) => EventView::Clear {
                session_id: event.session_id@,
                pane_id: event.pane_id@,
            },
        }
    }
}

/// A field without the white space around it, which has to hold something.
pub open spec fn non_empty(field_name: Seq<char>, value: Seq<char>) -> Result<
    Seq<char>,
    ActivityErrorView,
> {
    if trim_of(value).len() == 0 {
        Err(ActivityErrorView::Usage(field_name + " must be a non-empty string"@))
    } else {
        Ok(trim_of(value))
    }
}

/// Trims a field, which has to hold something.
pub fn require_non_empty(field_name: &str, value: &str) -> (trimmed: Result<
    String,
    RecentActivityError,
>)
    ensures
        match non_empty(field_name@, value@) {
            Ok(expected) => trimmed matches Ok(trimmed) && trimmed@ == expected,
            Err(expected) => trimmed matches Err(error) && error@ == expected,
        },
{
    let trimmed = trim(value);
    if trimmed.as_str().unicode_len() == 0 {
        return Err(RecentActivityError::Usage(join(field_name, " must be a non-empty string")));
    }
    Ok(trimmed)
}

/// The event that a payload asks for, or the first field that is empty.
pub open spec fn notify_event_of(payload: NotifyPayload) -> Result<EventView, ActivityErrorView> {
    match (
        non_empty("sessionId"@, payload.session_id@),
        non_empty("paneId"@, payload.pane_id@),
        non_empty("paneDisplayText"@, payload.pane_display_text@),
    ) {
        (Err(error), _, _) => Err(error),
        (_, Err(error), _) => Err(error),
        (_, _, Err(error)) => Err(error),
        (Ok(session_id), Ok(pane_id), Ok(pane_display_text)) => Ok(
            EventView::Notify {
                session_id,
                pane_id,
                pane_display_text,
                notify_time: payload.notify_time,
            },
        ),
    }
}

/// Makes the event that a payload asks for.
pub fn notify_event_from_payload(payload: &NotifyPayload) -> (event: Result<
    NotifyEvent,
    RecentActivityError,
>)
    ensures
        match notify_event_of(*payload) {
            Ok(expected) => event matches Ok(event) && RecentPaneEvent::Notify(event)@ == expected,
            Err(expected) => event matches Err(error) && error@ == expected,
        },
{
    let session_id = match require_non_empty("sessionId", payload.session_id.as_str()) {
        Ok(text) => text,
        Err(error) => {
            return Err(error);
        },
    };
    let pane_id = match require_non_empty("paneId", payload.pane_id.as_str()) {
        Ok(text) => text,
        Err(error) => {
            return Err(error);
        },
    };
    let pane_display_text = match require_non_empty(
        "paneDisplayText",
        payload.pane_display_text.as_str(),
    ) {
        Ok(text) => text,
        Err(error) => {
            return Err(error);
        },
    };
    Ok(NotifyEvent { session_id, pane_id, pane_display_text, notify_time: payload.notify_time })
}

/// The event that a payload asks for, or the first field that is empty.
pub open spec fn clear_event_of(payload: ClearPayload) -> Result<EventView, ActivityErrorView> {
    match (
        non_empty("sessionId"@, payload.session_id@),
        non_empty("paneId"@, payload.pane_id@),
    ) {
        (Err(error), _) => Err(error),
        (_, Err(error)) => Err(error),
        (Ok(session_id), Ok(pane_id)) => Ok(EventView::Clear { session_id, pane_id }),
    }
}

/// Makes the event that a payload asks for.
pub fn clear_event_from_payload(payload: &ClearPayload) -> (event: Result<
    ClearEvent,
    RecentActivityError,
>)
    ensures
        match clear_event_of(*payload) {
            Ok(expected) => event matches Ok(event) && RecentPaneEvent::Clear(event)@ == expected,
            Err(expected) => event matches Err(error) && error@ == expected,
        },
{
    let session_id = match require_non_empty("sessionId", payload.session_id.as_str()) {
        Ok(text) => text,
        Err(error) => {
            return Err(error);
        },
    };
    let pane_id = match require_non_empty("paneId", payload.pane_id.as_str()) {
        Ok(text) => text,
        Err(error) => {
            return Err(error);
        },
    };
    Ok(ClearEvent { session_id, pane_id })
}

/// The members of an event in the log, in order.
pub open spec fn event_fields(event: EventView) -> Seq<(Seq<char>, JsonFieldView)> {
    match event {
        EventView::Notify { session_id, pane_id, pane_display_text, notify_time } => seq![
            ("version"@, JsonFieldView::Number(Some(EVENT_LOG_VERSION))),
            ("event"@, JsonFieldView::Text("notify"@)),
            ("sessionId"@, JsonFieldView::Text(session_id)),
            ("paneId"@, JsonFieldView::Text(pane_id)),
            ("paneDisplayText"@, JsonFieldView::Text(pane_display_text)),
            ("notifyTime"@, JsonFieldView::Number(Some(notify_time))),
        ],
        EventView::Clear { session_id, pane_id } => seq![
            ("version"@, JsonFieldView::Number(Some(EVENT_LOG_VERSION))),
            ("event"@, JsonFieldView::Text("clear"@)),
            ("sessionId"@, JsonFieldView::Text(session_id)),
            ("paneId"@, JsonFieldView::Text(pane_id)),
        ],
    }
}

/// The line of an event in the log.
pub open spec fn event_line_of(event: EventView) -> Seq<char> {
    flat_object_text(event_fields(event))
}

fn push_text_member(
    members: &mut Vec<(String, String)>,
    name: &str,
    text: &str,
)
    ensures
        raw_views(final(members)@) == raw_views(old(members)@).push(
            (name@, field_text(JsonFieldView::Text(text@))),
        ),
{
    members.push((name.to_owned(), quote(text)));
    assert(raw_views(members@) =~= raw_views(old(members)@).push(
        (name@, field_text(JsonFieldView::Text(text@))),
    ));
}

fn push_number_member(members: &mut Vec<(String, String)>, name: &str, number: u64)
    ensures
        raw_views(final(members)@) == raw_views(old(members)@).push(
            (name@, field_text(JsonFieldView::Number(Some(number)))),
        ),
{
    members.push((name.to_owned(), numeral(number as u128)));
    assert(raw_views(members@) =~= raw_views(old(members)@).push(
        (name@, field_text(JsonFieldView::Number(Some(number)))),
    ));
}

/// Writes the line of an event in the log.
pub fn event_line(event: &RecentPaneEvent) -> (line: String)
    ensures
        line@ == event_line_of(event@),
{
    let mut members: Vec<(String, String)> = Vec::new();
    push_number_member(&mut members, "version", EVENT_LOG_VERSION);
    match event {
        RecentPaneEvent::Notify(event) => {
            push_text_member(&mut members, "event", "notify");
            push_text_member(&mut members, "sessionId", event.session_id.as_str());
            push_text_member(&mut members, "paneId", event.pane_id.as_str());
            push_text_member(&mut members, "paneDisplayText", event.pane_display_text.as_str());
            push_number_member(&mut members, "notifyTime", event.notify_time);
        },
        RecentPaneEvent::Clear(event) => {
            push_text_member(&mut members, "event", "clear");
            push_text_member(&mut members, "sessionId", event.session_id.as_str());
            push_text_member(&mut members, "paneId", event.pane_id.as_str());
        },
    }
    assert(raw_views(members@) =~= event_fields(event@).map_values(
        |field: (Seq<char>, JsonFieldView)| (field.0, field_text(field.1)),
    ));
    write_object(&members)
}

/// The names that the members of a `notify` event have, all of them and no others.
pub open spec fn notify_names() -> Seq<Seq<char>> {
    seq!["version"@, "event"@, "sessionId"@, "paneId"@, "paneDisplayText"@, "notifyTime"@]
}

/// The names that the members of a `clear` event have, all of them and no others.
pub open spec fn clear_names() -> Seq<Seq<char>> {
    seq!["version"@, "event"@, "sessionId"@, "paneId"@]
}

/// The event that the members of a JSON object are, if they are one.
pub open spec fn event_of_fields(fields: JsonFields) -> Option<EventView> {
    if fields.dom() == notify_names().to_set() && fields["version"@] == JsonFieldView::Number(
        Some(EVENT_LOG_VERSION),
    ) && fields["event"@] == JsonFieldView::Text("notify"@) {
        match (
            fields["sessionId"@],
            fields["paneId"@],
            fields["paneDisplayText"@],
            fields["notifyTime"@],
        ) {
            (
                JsonFieldView::Text(session_id),
                JsonFieldView::Text(pane_id),
                JsonFieldView::Text(pane_display_text),
                JsonFieldView::Number(Some(notify_time)),
            ) => Some(EventView::Notify { session_id, pane_id, pane_display_text, notify_time }),
            _ => None,
        }
    } else if fields.dom() == clear_names().to_set() && fields["version"@] == JsonFieldView::Number(
        Some(EVENT_LOG_VERSION),
    ) && fields["event"@] == JsonFieldView::Text("clear"@) {
        match (fields["sessionId"@], fields["paneId"@]) {
            (JsonFieldView::Text(session_id), JsonFieldView::Text(pane_id)) => Some(
                EventView::Clear { session_id, pane_id },
            ),
            _ => None,
        }
    } else {
        None
    }
}

/// The event that a line of the log is, if it is one.
pub open spec fn event_of_line(line: Seq<char>) -> Option<EventView> {
    match json_object(line) {
        Some(fields) => event_of_fields(fields),
        None => None,
    }
}

pub open spec fn event_view(event: Option<RecentPaneEvent>) -> Option<EventView> {
    match event {
        Some(event) => Some(event@),
        None => None,
    }
}

/// The value of the last member of a name, if there is one.
fn field<'a>(members: &'a Vec<JsonMember>, name: &str) -> (value: Option<&'a JsonField>)
    ensures
        value is Some == fields_of(members@).contains_key(name@),
        value matches Some(value) ==> value@ == fields_of(members@)[name@],
{
    let mut i: usize = members.len();
    assert(members@.take(i as int) =~= members@);
    while i > 0
        invariant
            i <= members@.len(),
            fields_of(members@).contains_key(name@) == fields_of(
                members@.take(i as int),
            ).contains_key(name@),
            fields_of(members@).contains_key(name@) ==> fields_of(members@)[name@] == fields_of(
                members@.take(i as int),
            )[name@],
        decreases i,
    {
        assert(members@.take(i as int).drop_last() =~= members@.take(i - 1));
        if same_text(members[i - 1].name.as_str(), name) {
            return Some(&members[i - 1].value);
        }
        i = i - 1;
    }
    None
}

proof fn lemma_name_is_there(members: Seq<JsonMember>, i: int)
    requires
        0 <= i < members.len(),
    ensures
        fields_of(members).contains_key(members[i].name@),
    decreases members.len(),
{
    if i < members.len() - 1 {
        lemma_name_is_there(members.drop_last(), i);
    }
}

/// Whether a name is among some.
fn is_among(names: &Vec<String>, name: &str) -> (yes: bool)
    ensures
        yes == views_of(names@).contains(name@),
{
    let ghost all = views_of(names@);
    let mut i: usize = 0;
    while i < names.len()
        invariant
            i <= names@.len(),
            all == views_of(names@),
            forall|k: int| 0 <= k < i ==> #[trigger] all[k] != name@,
        decreases names@.len() - i,
    {
        assert(all[i as int] == names@[i as int]@);
        if same_text(names[i].as_str(), name) {
            return true;
        }
        i = i + 1;
    }
    false
}

/// Whether members have the given names, all of them and no others.
fn has_names(members: &Vec<JsonMember>, names: &Vec<String>) -> (yes: bool)
    ensures
        yes == (fields_of(members@).dom() == views_of(names@).to_set()),
{
    let ghost fields = fields_of(members@);
    let ghost wanted = views_of(names@);
    let mut i: usize = 0;
    assert(members@.take(0) =~= Seq::empty());
    while i < members.len()
        invariant
            i <= members@.len(),
            fields == fields_of(members@),
            wanted == views_of(names@),
            fields_of(members@.take(i as int)).dom().subset_of(wanted.to_set()),
        decreases members@.len() - i,
    {
        assert(members@.take(i + 1).drop_last() =~= members@.take(i as int));
        if !is_among(names, members[i].name.as_str()) {
            proof {
                lemma_name_is_there(members@, i as int);
            }
            return false;
        }
        i = i + 1;
    }
    assert(members@.take(i as int) =~= members@);
    let mut j: usize = 0;
    while j < names.len()
        invariant
            j <= names@.len(),
            fields == fields_of(members@),
            wanted == views_of(names@),
            fields.dom().subset_of(wanted.to_set()),
            forall|k: int| 0 <= k < j ==> fields.contains_key(#[trigger] wanted[k]),
        decreases names@.len() - j,
    {
        assert(wanted[j as int] == names@[j as int]@);
        if field(members, names[j].as_str()).is_none() {
            assert(wanted.to_set().contains(wanted[j as int]));
            return false;
        }
        j = j + 1;
    }
    assert(fields.dom() =~= wanted.to_set());
    true
}

fn text_field(members: &Vec<JsonMember>, name: &str) -> (text: Option<String>)
    requires
        fields_of(members@).contains_key(name@),
    ensures
        match fields_of(members@)[name@] {
            JsonFieldView::Text(expected) => text matches Some(text) && text@ == expected,
            _ => text is None,
        },
{
    match field(members, name) {
        Some(JsonField::Text(text)) => Some(text.clone()),
        _ => None,
    }
}

fn number_field(members: &Vec<JsonMember>, name: &str) -> (number: Option<u64>)
    requires
        fields_of(members@).contains_key(name@),
    ensures
        match fields_of(members@)[name@] {
            JsonFieldView::Number(expected) => number == expected,
            _ => number is None,
        },
{
    match field(members, name) {
        Some(JsonField::Number(number)) => *number,
        _ => None,
    }
}

/// Whether members are of the version that is read, and an event of the given sort.
fn is_event(members: &Vec<JsonMember>, event: &str) -> (yes: bool)
    requires
        fields_of(members@).contains_key("version"@),
        fields_of(members@).contains_key("event"@),
    ensures
        yes == (fields_of(members@)["version"@] == JsonFieldView::Number(Some(EVENT_LOG_VERSION))
            && fields_of(members@)["event"@] == JsonFieldView::Text(event@)),
{
    let version: Option<u64> = number_field(members, "version");
    let is_read = match version {
        Some(version) => version == EVENT_LOG_VERSION,
        None => false,
    };
    match text_field(members, "event") {
        Some(text) => is_read && same_text(text.as_str(), event),
        None => false,
    }
}

fn notify_event_from_members(members: &Vec<JsonMember>) -> (event: Option<NotifyEvent>)
    requires
        fields_of(members@).dom() == notify_names().to_set(),
    ensures
        match (
            fields_of(members@)["sessionId"@],
            fields_of(members@)["paneId"@],
            fields_of(members@)["paneDisplayText"@],
            fields_of(members@)["notifyTime"@],
        ) {
            (
                JsonFieldView::Text(session_id),
                JsonFieldView::Text(pane_id),
                JsonFieldView::Text(pane_display_text),
                JsonFieldView::Number(Some(notify_time)),
            ) => event matches Some(event) && RecentPaneEvent::Notify(event)@ == (
            EventView::Notify { session_id, pane_id, pane_display_text, notify_time }),
            _ => event is None,
        },
{
    proof {
        let names = notify_names();
        assert(names.contains(names[2]) && names.contains(names[3]) && names.contains(names[4])
            && names.contains(names[5]));
        assert(names.to_set().contains(names[2]) && names.to_set().contains(names[3])
            && names.to_set().contains(names[4]) && names.to_set().contains(names[5]));
    }
    match (
        text_field(members, "sessionId"),
        text_field(members, "paneId"),
        text_field(members, "paneDisplayText"),
        number_field(members, "notifyTime"),
    ) {
        (Some(session_id), Some(pane_id), Some(pane_display_text), Some(notify_time)) => Some(
            NotifyEvent { session_id, pane_id, pane_display_text, notify_time },
        ),
        _ => None,
    }
}

/// Reads the members of a JSON object as an event.
pub fn recent_pane_event_from_members(members: &Vec<JsonMember>) -> (event: Option<RecentPaneEvent>)
    ensures
        event_view(event) == event_of_fields(fields_of(members@)),
{
    let mut clear: Vec<String> = Vec::new();
    push_text(&mut clear, "version");
    push_text(&mut clear, "event");
    push_text(&mut clear, "sessionId");
    push_text(&mut clear, "paneId");
    let mut notify = clear.clone();
    push_text(&mut notify, "paneDisplayText");
    push_text(&mut notify, "notifyTime");
    proof {
        assert(views_of(clear@) =~= clear_names());
        assert(views_of(notify@) =~= notify_names());
        let few = clear_names();
        let many = notify_names();
        assert(few.contains(few[0]) && few.contains(few[1]) && few.contains(few[2])
            && few.contains(few[3]));
        assert(many.contains(many[0]) && many.contains(many[1]));
        assert(few.to_set().contains(few[0]) && few.to_set().contains(few[1])
            && few.to_set().contains(few[2]) && few.to_set().contains(few[3]));
        assert(many.to_set().contains(many[0]) && many.to_set().contains(many[1]));
    }
    if has_names(members, &notify) && is_event(members, "notify") {
        return match notify_event_from_members(members) {
            Some(event) => Some(RecentPaneEvent::Notify(event)),
            None => None,
        };
    }
    if has_names(members, &clear) && is_event(members, "clear") {
        return match (text_field(members, "sessionId"), text_field(members, "paneId")) {
            (Some(session_id), Some(pane_id)) => Some(
                RecentPaneEvent::Clear(ClearEvent { session_id, pane_id }),
            ),
            _ => None,
        };
    }
    None
}

proof fn lemma_names_differ()
    ensures
        "version"@ != "event"@,
        "version"@ != "sessionId"@,
        "version"@ != "paneId"@,
        "version"@ != "paneDisplayText"@,
        "version"@ != "notifyTime"@,
        "event"@ != "sessionId"@,
        "event"@ != "paneId"@,
        "event"@ != "paneDisplayText"@,
        "event"@ != "notifyTime"@,
        "sessionId"@ != "paneId"@,
        "sessionId"@ != "paneDisplayText"@,
        "sessionId"@ != "notifyTime"@,
        "paneId"@ != "paneDisplayText"@,
        "paneId"@ != "notifyTime"@,
        "paneDisplayText"@ != "notifyTime"@,
        "notify"@ != "clear"@,
{
    reveal_strlit("version");
    reveal_strlit("event");
    reveal_strlit("sessionId");
    reveal_strlit("paneId");
    reveal_strlit("paneDisplayText");
    reveal_strlit("notifyTime");
    reveal_strlit("notify");
    reveal_strlit("clear");
    assert("sessionId"@.len() == 9 && "paneId"@.len() == 6 && "version"@.len() == 7
        && "event"@.len() == 5 && "paneDisplayText"@.len() == 15 && "notifyTime"@.len() == 10
        && "notify"@.len() == 6 && "clear"@.len() == 5);
}

/// The members that are written for an event are members of that event.
proof fn lemma_event_fields_are_an_event(event: EventView)
    ensures
        is_flat(event_fields(event)),
        event_of_fields(flat_fields(event_fields(event))) == Some(event),
{
    lemma_names_differ();
    reveal_with_fuel(flat_fields, 7);
    let written = event_fields(event);
    let fields = flat_fields(written);
    match event {
        EventView::Notify { session_id, pane_id, pane_display_text, notify_time } => {
            assert(written.len() == 6);
            assert(fields =~= map![
                "version"@ => JsonFieldView::Number(Some(EVENT_LOG_VERSION)),
                "event"@ => JsonFieldView::Text("notify"@),
                "sessionId"@ => JsonFieldView::Text(session_id),
                "paneId"@ => JsonFieldView::Text(pane_id),
                "paneDisplayText"@ => JsonFieldView::Text(pane_display_text),
                "notifyTime"@ => JsonFieldView::Number(Some(notify_time)),
            ]);
            let names = notify_names();
            assert(names.contains(names[0]) && names.contains(names[1]) && names.contains(names[2])
                && names.contains(names[3]) && names.contains(names[4]) && names.contains(
                names[5],
            ));
            assert(fields.dom() =~= names.to_set());
        },
        EventView::Clear { session_id, pane_id } => {
            assert(written.len() == 4);
            assert(fields =~= map![
                "version"@ => JsonFieldView::Number(Some(EVENT_LOG_VERSION)),
                "event"@ => JsonFieldView::Text("clear"@),
                "sessionId"@ => JsonFieldView::Text(session_id),
                "paneId"@ => JsonFieldView::Text(pane_id),
            ]);
            let names = clear_names();
            assert(names.contains(names[0]) && names.contains(names[1]) && names.contains(names[2])
                && names.contains(names[3]));
            assert(fields.dom() =~= names.to_set());
        },
    }
}

/// Reads a line of the log. What is no event is left out, so that the rest of the log can be
/// read.
pub fn recent_pane_event_from_line(line: &str) -> (event: Option<RecentPaneEvent>)
    ensures
        event_view(event) == event_of_line(line@),
        forall|written: EventView|
            line@ == #[trigger] event_line_of(written) ==> event_view(event) == Some(written),
{
    let parsed = parse_json_object(line);
    proof {
        assert forall|written: EventView| line@ == #[trigger] event_line_of(written) implies
            event_of_line(line@) == Some(written) by {
            lemma_event_fields_are_an_event(written);
            assert(json_object(line@) == Some(flat_fields(event_fields(written))));
        }
    }
    match parsed {
        Some(members) => recent_pane_event_from_members(&members),
        None => None,
    }
}

/// The entries after an event.
pub open spec fn apply(entries: Map<PaneKey, PaneView>, event: EventView) -> Map<
    PaneKey,
    PaneView,
> {
    match event {
        EventView::Notify { session_id, pane_id, pane_display_text, notify_time } => entries.insert(
            (session_id, pane_id),
            PaneView {
                session_id,
                pane_id,
                title: pane_display_text,
                observed_at: notify_time * 1_000_000,
            },
        ),
        EventView::Clear { session_id, pane_id } => entries.remove((session_id, pane_id)),
    }
}

/// The entries after a line of the log, which is still in bytes. A line that is no UTF-8, is
/// blank or is no event changes nothing.
pub open spec fn apply_line(entries: Map<PaneKey, PaneView>, line: Seq<u8>) -> Map<
    PaneKey,
    PaneView,
> {
    if !valid_utf8(line) || is_blank(decode_utf8(line)) {
        entries
    } else {
        match event_of_line(decode_utf8(line)) {
            Some(event) => apply(entries, event),
            None => entries,
        }
    }
}

/// The entries after lines of the log, one after the other.
pub open spec fn replay_lines(entries: Map<PaneKey, PaneView>, lines: Seq<Seq<u8>>) -> Map<
    PaneKey,
    PaneView,
>
    decreases lines.len(),
{
    if lines.len() == 0 {
        entries
    } else {
        apply_line(replay_lines(entries, lines.drop_last()), lines.last())
    }
}

/// The entries after files of the log, one after the other.
pub open spec fn replay(files: Seq<Seq<u8>>) -> Map<PaneKey, PaneView>
    decreases files.len(),
{
    if files.len() == 0 {
        Map::empty()
    } else {
        replay_lines(replay(files.drop_last()), byte_lines(files.last()))
    }
}

/// The bytes that an event adds to the log.
pub open spec fn event_bytes(event: EventView) -> Seq<u8> {
    encode_utf8(event_line_of(event)).push(0x0au8)
}

/// The bytes of a log of the given events.
pub open spec fn log_bytes(events: Seq<EventView>) -> Seq<u8>
    decreases events.len(),
{
    if events.len() == 0 {
        Seq::empty()
    } else {
        log_bytes(events.drop_last()) + event_bytes(events.last())
    }
}

/// The entries after some events, one after the other.
pub open spec fn apply_all(entries: Map<PaneKey, PaneView>, events: Seq<EventView>) -> Map<
    PaneKey,
    PaneView,
>
    decreases events.len(),
{
    if events.len() == 0 {
        entries
    } else {
        apply(apply_all(entries, events.drop_last()), events.last())
    }
}

/// The bytes of logs of the given events.
pub open spec fn logs_bytes(logs: Seq<Seq<EventView>>) -> Seq<Seq<u8>> {
    logs.map_values(|events: Seq<EventView>| log_bytes(events))
}

/// The events of logs, one log after the other.
pub open spec fn all_events(logs: Seq<Seq<EventView>>) -> Seq<EventView>
    decreases logs.len(),
{
    if logs.len() == 0 {
        Seq::empty()
    } else {
        all_events(logs.drop_last()) + logs.last()
    }
}

/// Whether the bytes of an event's line are read as that event.
pub open spec fn reads_as_written(line: Seq<u8>) -> bool {
    forall|event: EventView|
        line == encode_utf8(#[trigger] event_line_of(event)) ==> event_of_line(decode_utf8(line))
            == Some(event)
}

/// Whether each line in files of the log that is an event's line is read as that event, whatever
/// the other lines are.
pub open spec fn lines_read_as_written(files: Seq<Seq<u8>>) -> bool {
    forall|f: int, k: int|
        0 <= f < files.len() && 0 <= k < byte_lines(files[f]).len() ==> reads_as_written(
            #[trigger] byte_lines(files[f])[k],
        )
}

/// The entries that are recent: not older than a while, and not in the future.
pub open spec fn recent_entries(entries: Map<PaneKey, PaneView>, now: int) -> Map<
    PaneKey,
    PaneView,
> {
    entries_where(
        entries,
        |pane: PaneView| pane.observed_at <= now <= pane.observed_at + RECENT_ACTIVITY_TTL,
    )
}

fn apply_event(table: &mut PaneTable, event: RecentPaneEvent)
    ensures
        final(table)@ == apply(old(table)@, event@),
{
    match event {
        RecentPaneEvent::Notify(event) => {
            table.insert(
                RecentPane {
                    session_id: event.session_id,
                    pane_id: event.pane_id,
                    title: event.pane_display_text,
                    observed_at: Timestamp::from_millis(event.notify_time),
                },
            );
        },
        RecentPaneEvent::Clear(event) => {
            table.remove(event.session_id.as_str(), event.pane_id.as_str());
        },
    }
}

fn replay_line(table: &mut PaneTable, line: Vec<u8>)
    ensures
        final(table)@ == apply_line(old(table)@, line@),
        reads_as_written(line@),
{
    proof {
        assert forall|event: EventView| line@ == encode_utf8(#[trigger] event_line_of(event)) implies
            valid_utf8(line@) && decode_utf8(line@) == event_line_of(event) && !is_blank(
            decode_utf8(line@),
        ) by {
            lemma_event_line_bytes(event);
        }
    }
    match text_from_utf8(line) {
        Ok(text) => {
            if !is_blank_line(text.as_str()) {
                match recent_pane_event_from_line(text.as_str()) {
                    Some(event) => {
                        apply_event(table, event);
                    },
                    None => {},
                }
            }
        },
        Err(_) => {},
    }
}

fn replay_file(table: &mut PaneTable, file: &Vec<u8>)
    ensures
        final(table)@ == replay_lines(old(table)@, byte_lines(file@)),
        forall|i: int|
            0 <= i < byte_lines(file@).len() ==> reads_as_written(#[trigger] byte_lines(file@)[i]),
{
    let lines = lines_in_bytes(file);
    let ghost all = byte_lines(file@);
    let mut i: usize = 0;
    assert(lines@.len() == all.len());
    while i < lines.len()
        invariant
            i <= lines@.len(),
            all == byte_views_of(lines@),
            table@ == replay_lines(old(table)@, all.take(i as int)),
            forall|k: int| 0 <= k < i ==> reads_as_written(#[trigger] all[k]),
        decreases lines@.len() - i,
    {
        assert(all.take(i + 1).drop_last() =~= all.take(i as int));
        assert(all.take(i + 1).last() == lines@[i as int]@);
        replay_line(table, lines[i].clone());
        i = i + 1;
    }
    assert(all.take(i as int) =~= all);
}

/// The panes that the files of the log leave as recent, the oldest file given first. An event
/// that was written to the log is read back as it is, whatever else is in the log.
pub fn recent_panes_of_files(files: &Vec<Vec<u8>>, now: Timestamp) -> (panes: Vec<RecentPane>)
    ensures
        lists_in_order(
            pane_views(panes@),
            recent_entries(replay(byte_views_of(files@)), now.nanos as int),
        ),
        forall|logs: Seq<Seq<EventView>>|
            byte_views_of(files@) == #[trigger] logs_bytes(logs) ==> lists_in_order(
                pane_views(panes@),
                recent_entries(apply_all(Map::empty(), all_events(logs)), now.nanos as int),
            ),
        lines_read_as_written(byte_views_of(files@)),
{
    let ghost all = byte_views_of(files@);
    let mut table = PaneTable::new();
    let mut i: usize = 0;
    assert(all.take(0) =~= Seq::empty());
    while i < files.len()
        invariant
            i <= files@.len(),
            all == byte_views_of(files@),
            table@ == replay(all.take(i as int)),
            lines_read_as_written(all.take(i as int)),
        decreases files@.len() - i,
    {
        assert(all.take(i + 1).drop_last() =~= all.take(i as int));
        assert(all.take(i + 1).last() == files@[i as int]@);
        replay_file(&mut table, &files[i]);
        i = i + 1;
    }
    assert(all.take(i as int) =~= all);
    proof {
        assert forall|logs: Seq<Seq<EventView>>| all == #[trigger] logs_bytes(logs) implies replay(
            all,
        ) == apply_all(Map::empty(), all_events(logs)) by {
            assert forall|f: int, k: int| 0 <= f < logs.len() && 0 <= k < logs[f].len() implies
                reads_as_written(encode_utf8(event_line_of(#[trigger] logs[f][k]))) by {
                law_log_has_a_line_for_each_event(logs[f]);
                assert(all[f] == log_bytes(logs[f]));
                assert(reads_as_written(byte_lines(all[f])[k]));
            }
            law_logs_of_events_are_replayed(logs);
        }
    }
    table.observed_within(now, RECENT_ACTIVITY_TTL)
}

/// What became of reading a file of the log.
#[derive(Clone, Debug, PartialEq, Eq)]
pub enum ReadOutcome {
    Contents(Vec<u8>),
    /// There is no such file any more.
    Missing,
    /// The file could not be opened; holds what the system says.
    Failed(String),
}

/// A file of the log that was to be read.
#[derive(Clone, Debug, PartialEq, Eq)]
pub struct LogRead {
    pub path: String,
    pub outcome: ReadOutcome,
}

/// The error for a file of the log that could not be opened.
pub open spec fn open_error_of(path: Seq<char>, words: Seq<char>) -> ActivityErrorView {
    ActivityErrorView::EventLogWrite("failed to open "@ + path + ": "@ + words)
}

/// Makes the error for a file of the log that could not be opened.
pub fn open_error(path: &str, words: &str) -> (error: RecentActivityError)
    ensures
        error@ == open_error_of(path@, words@),
{
    let mut message = join("failed to open ", path);
    message.append(": ");
    message.append(words);
    RecentActivityError::EventLogWrite(message)
}

/// The contents of the files that were there, in order, or the error for the first one that
/// could not be opened.
pub open spec fn files_of(reads: Seq<LogRead>) -> Result<Seq<Seq<u8>>, ActivityErrorView>
    decreases reads.len(),
{
    if reads.len() == 0 {
        Ok(Seq::empty())
    } else {
        match files_of(reads.drop_last()) {
            Err(error) => Err(error),
            Ok(files) => match reads.last().outcome {
                ReadOutcome::Contents(bytes) => Ok(files.push(bytes@)),
                ReadOutcome::Missing => Ok(files),
                ReadOutcome::Failed(words) => Err(open_error_of(reads.last().path@, words@)),
            },
        }
    }
}

proof fn lemma_failed_read_stays(reads: Seq<LogRead>, n: int)
    requires
        0 <= n <= reads.len(),
        files_of(reads.take(n)) is Err,
    ensures
        files_of(reads) == files_of(reads.take(n)),
    decreases reads.len() - n,
{
    if n == reads.len() {
        assert(reads.take(n) =~= reads);
    } else {
        assert(reads.take(n + 1).drop_last() =~= reads.take(n));
        lemma_failed_read_stays(reads, n + 1);
    }
}

/// The panes that the log leaves as recent, given its files as they were read, the oldest
/// first. An event that was written to the log is read back as it is, whatever else is in the
/// log.
pub fn load_recent_panes(reads: Vec<LogRead>, now: Timestamp) -> (panes: Result<
    Vec<RecentPane>,
    RecentActivityError,
>)
    ensures
        match files_of(reads@) {
            Ok(files) => panes matches Ok(panes) && lists_in_order(
                pane_views(panes@),
                recent_entries(replay(files), now.nanos as int),
            ),
            Err(expected) => panes matches Err(error) && error@ == expected,
        },
        forall|logs: Seq<Seq<EventView>>|
            files_of(reads@) == Ok::<_, ActivityErrorView>(#[trigger] logs_bytes(logs)) ==> (
            panes matches Ok(panes) && lists_in_order(
                pane_views(panes@),
                recent_entries(apply_all(Map::empty(), all_events(logs)), now.nanos as int),
            )),
        files_of(reads@) matches Ok(files) ==> lines_read_as_written(files),
{
    let ghost all = reads@;
    let mut rest = reads;
    let mut files: Vec<Vec<u8>> = Vec::new();
    let ghost mut taken: int = 0;
    proof {
        assert(all.skip(0) =~= all);
        assert(byte_views_of(files@) =~= Seq::empty());
    }
    while rest.len() > 0
        invariant
            0 <= taken <= all.len(),
            all == reads@,
            rest@ == all.skip(taken),
            files_of(all.take(taken)) == Ok::<Seq<Seq<u8>>, ActivityErrorView>(
                byte_views_of(files@),
            ),
        decreases rest@.len(),
    {
        let ghost before = byte_views_of(files@);
        let read = rest.remove(0);
        proof {
            assert(read == all[taken]);
            assert(all.take(taken + 1).drop_last() =~= all.take(taken));
            assert(all.take(taken + 1).last() == read);
            assert(rest@ =~= all.skip(taken + 1));
            taken = taken + 1;
        }
        match read.outcome {
            ReadOutcome::Contents(bytes) => {
                let ghost view = bytes@;
                files.push(bytes);
                assert(byte_views_of(files@) =~= before.push(view));
            },
            ReadOutcome::Missing => {},
            ReadOutcome::Failed(words) => {
                proof {
                    lemma_failed_read_stays(all, taken);
                }
                return Err(open_error(read.path.as_str(), words.as_str()));
            },
        }
    }
    assert(all.take(taken) =~= all);
    Ok(recent_panes_of_files(&files, now))
}

/// Why the payload of a command could not be had.
#[derive(Clone, Debug, PartialEq, Eq)]
pub enum PayloadError {
    /// The file could not be read; holds what the system says.
    Unreadable(String),
    /// The file holds something else; holds what is wrong.
    Malformed(String),
}

/// What goes wrong before a payload is looked at: without a path, and where it could not be had.
pub open spec fn payload_error(payload_path: Seq<char>, error: Option<PayloadError>) -> Option<
    ActivityErrorView,
> {
    if payload_path.len() == 0 {
        Some(ActivityErrorView::Usage("payload path is required"@))
    } else {
        match error {
            Some(PayloadError::Unreadable(words)) => Some(
                ActivityErrorView::EventLogWrite(
                    "failed to read payload "@ + payload_path + ": "@ + words@,
                ),
            ),
            Some(PayloadError::Malformed(words)) => Some(ActivityErrorView::Json(words@)),
            None => None,
        }
    }
}

/// Checks the path of a payload.
pub fn require_payload_path(payload_path: &str) -> (checked: Result<(), RecentActivityError>)
    ensures
        match payload_error(payload_path@, None) {
            Some(expected) => checked matches Err(error) && error@ == expected,
            None => checked is Ok,
        },
{
    if payload_path.unicode_len() == 0 {
        return Err(RecentActivityError::Usage("payload path is required".to_owned()));
    }
    Ok(())
}

fn payload_failure(payload_path: &str, error: PayloadError) -> (failure: RecentActivityError)
    requires
        payload_path@.len() > 0,
    ensures
        payload_error(payload_path@, Some(error)) == Some(failure@),
{
    match error {
        PayloadError::Unreadable(words) => {
            let mut message = join("failed to read payload ", payload_path);
            message.append(": ");
            message.append(words.as_str());
            RecentActivityError::EventLogWrite(message)
        },
        PayloadError::Malformed(words) => RecentActivityError::Json(words),
    }
}

/// The line that `vmux notify` adds to the log, or why it adds none.
pub open spec fn notify_outcome(
    payload_path: Seq<char>,
    payload: Result<NotifyPayload, PayloadError>,
) -> Result<Seq<char>, ActivityErrorView> {
    match payload {
        Err(error) => Err(payload_error(payload_path, Some(error))->0),
        Ok(payload) => match (payload_error(payload_path, None), notify_event_of(payload)) {
            (Some(error), _) => Err(error),
            (None, Err(error)) => Err(error),
            (None, Ok(event)) => Ok(event_line_of(event)),
        },
    }
}

/// Makes the line that `vmux notify` adds to the log.
pub fn run_notify(payload_path: &str, payload: Result<NotifyPayload, PayloadError>) -> (line: Result<
    String,
    RecentActivityError,
>)
    ensures
        match notify_outcome(payload_path@, payload) {
            Ok(expected) => line matches Ok(line) && line@ == expected,
            Err(expected) => line matches Err(error) && error@ == expected,
        },
{
    match require_payload_path(payload_path) {
        Ok(()) => {},
        Err(error) => {
            return Err(error);
        },
    }
    let payload = match payload {
        Ok(payload) => payload,
        Err(error) => {
            return Err(payload_failure(payload_path, error));
        },
    };
    match notify_event_from_payload(&payload) {
        Ok(event) => Ok(event_line(&RecentPaneEvent::Notify(event))),
        Err(error) => Err(error),
    }
}

/// The line that `vmux clear` adds to the log, or why it adds none.
pub open spec fn clear_outcome(
    payload_path: Seq<char>,
    payload: Result<ClearPayload, PayloadError>,
) -> Result<Seq<char>, ActivityErrorView> {
    match payload {
        Err(error) => Err(payload_error(payload_path, Some(error))->0),
        Ok(payload) => match (payload_error(payload_path, None), clear_event_of(payload)) {
            (Some(error), _) => Err(error),
            (None, Err(error)) => Err(error),
            (None, Ok(event)) => Ok(event_line_of(event)),
        },
    }
}

/// Makes the line that `vmux clear` adds to the log.
pub fn run_clear(payload_path: &str, payload: Result<ClearPayload, PayloadError>) -> (line: Result<
    String,
    RecentActivityError,
>)
    ensures
        match clear_outcome(payload_path@, payload) {
            Ok(expected) => line matches Ok(line) && line@ == expected,
            Err(expected) => line matches Err(error) && error@ == expected,
        },
{
    match require_payload_path(payload_path) {
        Ok(()) => {},
        Err(error) => {
            return Err(error);
        },
    }
    let payload = match payload {
        Ok(payload) => payload,
        Err(error) => {
            return Err(payload_failure(payload_path, error));
        },
    };
    match clear_event_from_payload(&payload) {
        Ok(event) => Ok(event_line(&RecentPaneEvent::Clear(event))),
        Err(error) => Err(error),
    }
}

} // verus!
