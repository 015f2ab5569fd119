//! What holds of the events that payloads ask for and that lines of the log are read as.

use crate::json::{fields_of, json_object, JsonFieldView, JsonFields, JsonMember};
use crate::panes::{PaneKey, PaneView};
use crate::recent_activity::{
    apply_line, clear_event_of, clear_outcome, event_line_of, event_of_fields, event_of_line,
    notify_event_of, notify_outcome, reads_as_written, ActivityErrorView, ClearPayload, EventView,
    NotifyPayload, PayloadError,
};
use crate::recent_laws::lemma_event_line_bytes;
use crate::replay_laws::entry_of;
use crate::text_laws::{
    all_white, is_trimmed, law_blank_text_is_all_white, law_trimming_takes_white_space_only,
};
use vstd::prelude::*;
use vstd::utf8::encode_utf8;

verus! {

/// A payload whose three texts are not blank asks for an event with these texts, trimmed, and
/// with its own time.
pub proof fn law_notify_event_says_what_its_payload_says(payload: NotifyPayload)
    requires
        !all_white(payload.session_id@),
        !all_white(payload.pane_id@),
        !all_white(payload.pane_display_text@),
    ensures
        notify_event_of(payload) matches Ok(
            EventView::Notify { session_id, pane_id, pane_display_text, notify_time },
        ) && is_trimmed(session_id, payload.session_id@) && is_trimmed(pane_id, payload.pane_id@)
            && is_trimmed(pane_display_text, payload.pane_display_text@) && session_id.len() > 0
            && pane_id.len() > 0 && pane_display_text.len() > 0 && notify_time
            == payload.notify_time,
{
    law_blank_text_is_all_white(payload.session_id@);
    law_blank_text_is_all_white(payload.pane_id@);
    law_blank_text_is_all_white(payload.pane_display_text@);
    law_trimming_takes_white_space_only(payload.session_id@);
    law_trimming_takes_white_space_only(payload.pane_id@);
    law_trimming_takes_white_space_only(payload.pane_display_text@);
}

/// A payload with a blank text asks for no event; the error names the first such text.
pub proof fn law_blank_text_in_a_notify_payload_is_refused(payload: NotifyPayload)
    requires
        all_white(payload.session_id@) || all_white(payload.pane_id@) || all_white(
            payload.pane_display_text@,
        ),
    ensures
        notify_event_of(payload) == Err::<EventView, ActivityErrorView>(
            ActivityErrorView::Usage(
                (if all_white(payload.session_id@) {
                    "sessionId"@
                } else if all_white(payload.pane_id@) {
                    "paneId"@
                } else {
                    "paneDisplayText"@
                }) + " must be a non-empty string"@,
            ),
        ),
{
    law_blank_text_is_all_white(payload.session_id@);
    law_blank_text_is_all_white(payload.pane_id@);
    law_blank_text_is_all_white(payload.pane_display_text@);
}

/// A payload whose two texts are not blank asks for an event with these texts, trimmed.
pub proof fn law_clear_event_says_what_its_payload_says(payload: ClearPayload)
    requires
        !all_white(payload.session_id@),
        !all_white(payload.pane_id@),
    ensures
        clear_event_of(payload) matches Ok(EventView::Clear { session_id, pane_id }) && is_trimmed(
            session_id,
            payload.session_id@,
        ) && is_trimmed(pane_id, payload.pane_id@) && session_id.len() > 0 && pane_id.len() > 0,
{
    law_blank_text_is_all_white(payload.session_id@);
    law_blank_text_is_all_white(payload.pane_id@);
    law_trimming_takes_white_space_only(payload.session_id@);
    law_trimming_takes_white_space_only(payload.pane_id@);
}

/// A payload with a blank text asks for no event; the error names the first such text.
pub proof fn law_blank_text_in_a_clear_payload_is_refused(payload: ClearPayload)
    requires
        all_white(payload.session_id@) || all_white(payload.pane_id@),
    ensures
        clear_event_of(payload) == Err::<EventView, ActivityErrorView>(
            ActivityErrorView::Usage(
                (if all_white(payload.session_id@) {
                    "sessionId"@
                } else {
                    "paneId"@
                }) + " must be a non-empty string"@,
            ),
        ),
{
    law_blank_text_is_all_white(payload.session_id@);
    law_blank_text_is_all_white(payload.pane_id@);
}

/// The line that `vmux notify` adds, once it is replayed, leaves its pane with an entry of the
/// payload's text and time, whatever was there before; the entries of other panes stay.
pub proof fn law_notify_line_leaves_an_entry(
    payload_path: Seq<char>,
    payload: NotifyPayload,
    entries: Map<PaneKey, PaneView>,
    other: PaneKey,
)
    requires
        payload_path.len() > 0,
        !all_white(payload.session_id@),
        !all_white(payload.pane_id@),
        !all_white(payload.pane_display_text@),
    ensures
        notify_outcome(payload_path, Ok(payload)) matches Ok(line) && (reads_as_written(
            encode_utf8(line),
        ) ==> ({
            let after = apply_line(entries, encode_utf8(line));
            exists|session_id: Seq<char>, pane_id: Seq<char>|
                #![trigger after.contains_key((session_id, pane_id))]
                {
                    &&& is_trimmed(session_id, payload.session_id@)
                    &&& is_trimmed(pane_id, payload.pane_id@)
                    &&& after.contains_key((session_id, pane_id))
                    &&& after[(session_id, pane_id)].session_id == session_id
                    &&& after[(session_id, pane_id)].pane_id == pane_id
                    &&& is_trimmed(
                        after[(session_id, pane_id)].title,
                        payload.pane_display_text@,
                    )
                    &&& after[(session_id, pane_id)].observed_at == payload.notify_time * 1_000_000
                    &&& other != (session_id, pane_id) ==> entry_of(after, other) == entry_of(
                        entries,
                        other,
                    )
                }
        })),
{
    law_notify_event_says_what_its_payload_says(payload);
    let event = notify_event_of(payload)->Ok_0;
    lemma_event_line_bytes(event);
    let line = event_line_of(event);
    if reads_as_written(encode_utf8(line)) {
        let after = apply_line(entries, encode_utf8(line));
        match event {
            EventView::Notify { session_id, pane_id, .. } => {
                assert(after.contains_key((session_id, pane_id)));
            },
            EventView::Clear { .. } => {},
        }
    }
}

/// The line that `vmux clear` adds, once it is replayed, leaves its pane with no entry; the
/// entries of other panes stay.
pub proof fn law_clear_line_leaves_no_entry(
    payload_path: Seq<char>,
    payload: ClearPayload,
    entries: Map<PaneKey, PaneView>,
    key: PaneKey,
)
    requires
        payload_path.len() > 0,
        !all_white(payload.session_id@),
        !all_white(payload.pane_id@),
    ensures
        clear_outcome(payload_path, Ok(payload)) matches Ok(line) && (reads_as_written(
            encode_utf8(line),
        ) ==> ({
            let after = apply_line(entries, encode_utf8(line));
            exists|session_id: Seq<char>, pane_id: Seq<char>|
                #![trigger after.contains_key((session_id, pane_id))]
                {
                    &&& is_trimmed(session_id, payload.session_id@)
                    &&& is_trimmed(pane_id, payload.pane_id@)
                    &&& !after.contains_key((session_id, pane_id))
                    &&& key != (session_id, pane_id) ==> entry_of(after, key) == entry_of(
                        entries,
                        key,
                    )
                }
        })),
{
    law_clear_event_says_what_its_payload_says(payload);
    let event = clear_event_of(payload)->Ok_0;
    lemma_event_line_bytes(event);
    let line = event_line_of(event);
    if reads_as_written(encode_utf8(line)) {
        let after = apply_line(entries, encode_utf8(line));
        match event {
            EventView::Clear { session_id, pane_id } => {
                assert(!after.contains_key((session_id, pane_id)));
            },
            EventView::Notify { .. } => {},
        }
    }
}

/// Without a path, without a payload that could be read, or with one that says nothing, a
/// command adds no line, and tells why.
pub proof fn law_bad_payload_adds_no_line(
    payload_path: Seq<char>,
    notify: Result<NotifyPayload, PayloadError>,
    clear: Result<ClearPayload, PayloadError>,
    words: String,
)
    ensures
        payload_path.len() == 0 ==> notify_outcome(payload_path, notify) == Err::<
            Seq<char>,
            ActivityErrorView,
        >(ActivityErrorView::Usage("payload path is required"@)),
        payload_path.len() == 0 ==> clear_outcome(payload_path, clear) == Err::<
            Seq<char>,
            ActivityErrorView,
        >(ActivityErrorView::Usage("payload path is required"@)),
        payload_path.len() > 0 && notify == Err::<NotifyPayload, PayloadError>(
            PayloadError::Unreadable(words),
        ) ==> notify_outcome(payload_path, notify) == Err::<Seq<char>, ActivityErrorView>(
            ActivityErrorView::EventLogWrite(
                "failed to read payload "@ + payload_path + ": "@ + words@,
            ),
        ),
        payload_path.len() > 0 && clear == Err::<ClearPayload, PayloadError>(
            PayloadError::Unreadable(words),
        ) ==> clear_outcome(payload_path, clear) == Err::<Seq<char>, ActivityErrorView>(
            ActivityErrorView::EventLogWrite(
                "failed to read payload "@ + payload_path + ": "@ + words@,
            ),
        ),
        payload_path.len() > 0 && notify == Err::<NotifyPayload, PayloadError>(
            PayloadError::Malformed(words),
        ) ==> notify_outcome(payload_path, notify) == Err::<Seq<char>, ActivityErrorView>(
            ActivityErrorView::Json(words@),
        ),
        payload_path.len() > 0 && clear == Err::<ClearPayload, PayloadError>(
            PayloadError::Malformed(words),
        ) ==> clear_outcome(payload_path, clear) == Err::<Seq<char>, ActivityErrorView>(
            ActivityErrorView::Json(words@),
        ),
        payload_path.len() > 0 && notify is Ok && notify_event_of(notify->Ok_0) is Err
            ==> notify_outcome(payload_path, notify) == Err::<Seq<char>, ActivityErrorView>(
            notify_event_of(notify->Ok_0)->Err_0,
        ),
        payload_path.len() > 0 && clear is Ok && clear_event_of(clear->Ok_0) is Err
            ==> clear_outcome(payload_path, clear) == Err::<Seq<char>, ActivityErrorView>(
            clear_event_of(clear->Ok_0)->Err_0,
        ),
{
}

/// Whether members have exactly the given names.
pub open spec fn has_exactly(fields: JsonFields, names: Seq<Seq<char>>) -> bool {
    forall|name: Seq<char>| #[trigger] fields.contains_key(name) <==> names.contains(name)
}

/// Members are read as an event only if they are of version 1, name the kind of the event, and
/// are just those that such an event has; the event says what they say.
pub proof fn law_event_says_what_its_members_say(fields: JsonFields)
    ensures
        match event_of_fields(fields) {
            Some(EventView::Notify { session_id, pane_id, pane_display_text, notify_time }) => {
                &&& has_exactly(
                    fields,
                    seq![
                        "version"@,
                        "event"@,
                        "sessionId"@,
                        "paneId"@,
                        "paneDisplayText"@,
                        "notifyTime"@,
                    ],
                )
                &&& fields["version"@] == JsonFieldView::Number(Some(1))
                &&& fields["event"@] == JsonFieldView::Text("notify"@)
                &&& fields["sessionId"@] == JsonFieldView::Text(session_id)
                &&& fields["paneId"@] == JsonFieldView::Text(pane_id)
                &&& fields["paneDisplayText"@] == JsonFieldView::Text(pane_display_text)
                &&& fields["notifyTime"@] == JsonFieldView::Number(Some(notify_time))
            },
            Some(EventView::Clear { session_id, pane_id }) => {
                &&& has_exactly(fields, seq!["version"@, "event"@, "sessionId"@, "paneId"@])
                &&& fields["version"@] == JsonFieldView::Number(Some(1))
                &&& fields["event"@] == JsonFieldView::Text("clear"@)
                &&& fields["sessionId"@] == JsonFieldView::Text(session_id)
                &&& fields["paneId"@] == JsonFieldView::Text(pane_id)
            },
            None => true,
        },
{
    let many = seq![
        "version"@,
        "event"@,
        "sessionId"@,
        "paneId"@,
        "paneDisplayText"@,
        "notifyTime"@,
    ];
    let few = seq!["version"@, "event"@, "sessionId"@, "paneId"@];
    if fields.dom() == many.to_set() {
        assert forall|name: Seq<char>| #[trigger]
            fields.contains_key(name) <==> many.contains(name) by {
            assert(fields.dom().contains(name) == many.to_set().contains(name));
        }
    }
    if fields.dom() == few.to_set() {
        assert forall|name: Seq<char>| #[trigger]
            fields.contains_key(name) <==> few.contains(name) by {
            assert(fields.dom().contains(name) == few.to_set().contains(name));
        }
    }
}

/// Members of version 1 that are just those of a `notify` event, with values of the right sorts,
/// are read as one.
pub proof fn law_notify_members_are_an_event(
    fields: JsonFields,
    session_id: Seq<char>,
    pane_id: Seq<char>,
    pane_display_text: Seq<char>,
    notify_time: u64,
)
    requires
        has_exactly(
            fields,
            seq![
                "version"@,
                "event"@,
                "sessionId"@,
                "paneId"@,
                "paneDisplayText"@,
                "notifyTime"@,
            ],
        ),
        fields["version"@] == JsonFieldView::Number(Some(1)),
        fields["event"@] == JsonFieldView::Text("notify"@),
        fields["sessionId"@] == JsonFieldView::Text(session_id),
        fields["paneId"@] == JsonFieldView::Text(pane_id),
        fields["paneDisplayText"@] == JsonFieldView::Text(pane_display_text),
        fields["notifyTime"@] == JsonFieldView::Number(Some(notify_time)),
    ensures
        event_of_fields(fields) == Some(
            EventView::Notify { session_id, pane_id, pane_display_text, notify_time },
        ),
{
    let names = seq![
        "version"@,
        "event"@,
        "sessionId"@,
        "paneId"@,
        "paneDisplayText"@,
        "notifyTime"@,
    ];
    assert forall|name: Seq<char>| fields.dom().contains(name) == names.to_set().contains(name) by {
        assert(fields.contains_key(name) == names.contains(name));
    }
    assert(fields.dom() =~= names.to_set());
}

/// Members of version 1 that are just those of a `clear` event, with values of the right sorts,
/// are read as one.
pub proof fn law_clear_members_are_an_event(
    fields: JsonFields,
    session_id: Seq<char>,
    pane_id: Seq<char>,
)
    requires
        has_exactly(fields, seq!["version"@, "event"@, "sessionId"@, "paneId"@]),
        fields["version"@] == JsonFieldView::Number(Some(1)),
        fields["event"@] == JsonFieldView::Text("clear"@),
        fields["sessionId"@] == JsonFieldView::Text(session_id),
        fields["paneId"@] == JsonFieldView::Text(pane_id),
    ensures
        event_of_fields(fields) == Some(EventView::Clear { session_id, pane_id }),
{
    let names = seq!["version"@, "event"@, "sessionId"@, "paneId"@];
    assert forall|name: Seq<char>| fields.dom().contains(name) == names.to_set().contains(name) by {
        assert(fields.contains_key(name) == names.contains(name));
    }
    assert(fields.dom() =~= names.to_set());
    reveal_strlit("notify");
    reveal_strlit("clear");
    assert("notify"@.len() != "clear"@.len());
}

/// A line is read as the event that the members of its JSON object are, if it is an object at
/// all.
pub proof fn law_line_is_read_by_its_members(line: Seq<char>)
    ensures
        json_object(line) is None ==> event_of_line(line) is None,
        json_object(line) matches Some(fields) ==> event_of_line(line) == event_of_fields(fields),
{
}

/// Of members with one name the last one counts; the others are all there.
pub proof fn law_last_member_of_a_name_counts(
    members: Seq<JsonMember>,
    member: JsonMember,
    name: Seq<char>,
)
    ensures
        !fields_of(Seq::empty()).contains_key(name),
        fields_of(members.push(member)).contains_key(member.name@),
        fields_of(members.push(member))[member.name@] == member.value@,
        name != member.name@ ==> fields_of(members.push(member)).contains_key(name) == fields_of(
            members,
        ).contains_key(name),
        name != member.name@ && fields_of(members).contains_key(name) ==> fields_of(
            members.push(member),
        )[name] == fields_of(members)[name],
{
    assert(members.push(member).drop_last() =~= members);
}

} // verus!
