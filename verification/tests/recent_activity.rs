use vmux::json::{JsonField, JsonMember};
use vmux::panes::{RecentPane, Timestamp};
use vmux::recent_activity::{
    clear_event_from_payload, event_line, load_recent_panes, notify_event_from_payload, open_error,
    recent_pane_event_from_line, recent_pane_event_from_members, require_non_empty, run_clear,
    run_notify, ClearEvent, ClearPayload, LogRead, NotifyEvent, NotifyPayload, PayloadError,
    ReadOutcome, RecentActivityError, RecentPaneEvent,
};
use vmux::VmuxError;

fn log(path: &str, contents: &[u8]) -> LogRead {
    LogRead {
        path: path.to_string(),
        outcome: ReadOutcome::Contents(contents.to_vec()),
    }
}

fn load(contents: &[u8], now_millis: u64) -> Vec<RecentPane> {
    load_recent_panes(
        vec![log("recent-activity.jsonl", contents)],
        Timestamp::from_millis(now_millis),
    )
    .unwrap()
}

fn notify(session_id: &str, pane_id: &str, text: &str, time: u64) -> RecentPaneEvent {
    RecentPaneEvent::Notify(NotifyEvent {
        session_id: session_id.to_string(),
        pane_id: pane_id.to_string(),
        pane_display_text: text.to_string(),
        notify_time: time,
    })
}

fn clear(session_id: &str, pane_id: &str) -> RecentPaneEvent {
    RecentPaneEvent::Clear(ClearEvent {
        session_id: session_id.to_string(),
        pane_id: pane_id.to_string(),
    })
}

fn log_of(events: &[RecentPaneEvent]) -> Vec<u8> {
    let mut bytes = Vec::new();
    for event in events {
        bytes.extend_from_slice(event_line(event).as_bytes());
        bytes.push(b'\n');
    }
    bytes
}

#[test]
fn load_recent_panes_replays_notify_and_clear_events() {
    let contents = [
        "{\"version\":1,\"event\":\"notify\",\"sessionId\":\"$1\",\"paneId\":\"%1\",\"paneDisplayText\":\"server logs\",\"notifyTime\":100000}\n",
        "{\"version\":1,\"event\":\"clear\",\"sessionId\":\"$1\",\"paneId\":\"%1\"}\n",
        "{\"version\":1,\"event\":\"notify\",\"sessionId\":\"$1\",\"paneId\":\"%2\",\"paneDisplayText\":\"worker\",\"notifyTime\":120000}\n",
    ]
    .concat();

    let panes = load(contents.as_bytes(), 180000);
    assert_eq!(panes.len(), 1);
    assert_eq!(panes[0].session_id, "$1");
    assert_eq!(panes[0].pane_id, "%2");
    assert_eq!(panes[0].title, "worker");
}

#[test]
fn load_recent_panes_latest_notify_wins_for_same_identity() {
    let contents = [
        "{\"version\":1,\"event\":\"notify\",\"sessionId\":\"$1\",\"paneId\":\"%1\",\"paneDisplayText\":\"old title\",\"notifyTime\":100000}\n",
        "{\"version\":1,\"event\":\"notify\",\"sessionId\":\"$1\",\"paneId\":\"%1\",\"paneDisplayText\":\"new title\",\"notifyTime\":101000}\n",
    ]
    .concat();

    let panes = load(contents.as_bytes(), 161000);
    assert_eq!(panes.len(), 1);
    assert_eq!(panes[0].title, "new title");
}

#[test]
fn load_recent_panes_ignores_old_malformed_and_unknown_records() {
    let contents = [
        "{\"version\":1,\"event\":\"notify\",\"sessionId\":\"$1\",\"paneId\":\"%1\",\"paneDisplayText\":\"notification title\",\"notifyTime\":100000}\n",
        "not json\n",
        "{\"version\":1,\"event\":\"notify\",\"sessionId\":\"$2\",\"paneId\":\"%2\",\"paneDisplayText\":\"old\",\"notifyTime\":1}\n",
        "{\"version\":99,\"event\":\"notify\",\"sessionId\":\"$3\",\"paneId\":\"%3\",\"paneDisplayText\":\"wrong version\",\"notifyTime\":100000}\n",
        "{\"version\":1,\"event\":\"notify\",\"sessionId\":\"$broken\",\"paneId\":\"%3\"",
    ]
    .concat();

    let panes = load(contents.as_bytes(), 160000);
    assert_eq!(panes.len(), 1);
    assert_eq!(panes[0].session_id, "$1");
    assert_eq!(panes[0].pane_id, "%1");
    assert_eq!(panes[0].title, "notification title");
}

#[test]
fn load_recent_panes_reads_rotated_segments_before_active_file() {
    let rotated = log(
        "recent-activity.00000000000000000001-1.jsonl",
        b"{\"version\":1,\"event\":\"notify\",\"sessionId\":\"$1\",\"paneId\":\"%1\",\"paneDisplayText\":\"from rotated\",\"notifyTime\":100000}\n",
    );
    let active = log(
        "recent-activity.jsonl",
        b"{\"version\":1,\"event\":\"notify\",\"sessionId\":\"$1\",\"paneId\":\"%1\",\"paneDisplayText\":\"from active\",\"notifyTime\":100001}\n",
    );

    let now = Timestamp::from_millis(160001);
    let panes = load_recent_panes(vec![rotated, active], now).unwrap();
    assert_eq!(panes.len(), 1);
    assert_eq!(panes[0].title, "from active");
}

#[test]
fn notify_payload_requires_non_empty_identity_and_display_text() {
    let error = notify_event_from_payload(&NotifyPayload {
        session_id: "  ".to_string(),
        pane_id: "%1".to_string(),
        pane_display_text: "server logs".to_string(),
        notify_time: 1000,
    })
    .expect_err("empty session id should fail");
    assert!(matches!(error, RecentActivityError::Usage(_)));

    let error = notify_event_from_payload(&NotifyPayload {
        session_id: "$1".to_string(),
        pane_id: "%1".to_string(),
        pane_display_text: "   ".to_string(),
        notify_time: 1000,
    })
    .expect_err("empty display text should fail");
    assert!(matches!(error, RecentActivityError::Usage(_)));
}

#[test]
fn load_recent_panes_ignores_future_events() {
    let panes = load(
        b"{\"version\":1,\"event\":\"notify\",\"sessionId\":\"$1\",\"paneId\":\"%1\",\"paneDisplayText\":\"future\",\"notifyTime\":200000}\n",
        100000,
    );
    assert!(panes.is_empty());
}

#[test]
fn event_lines_have_a_fixed_form() {
    assert_eq!(
        event_line(&notify("$1", "%3", "tests failed", 1712600000000)),
        "{\"version\":1,\"event\":\"notify\",\"sessionId\":\"$1\",\"paneId\":\"%3\",\"paneDisplayText\":\"tests failed\",\"notifyTime\":1712600000000}"
    );
    assert_eq!(
        event_line(&clear("$1", "%3")),
        "{\"version\":1,\"event\":\"clear\",\"sessionId\":\"$1\",\"paneId\":\"%3\"}"
    );
    assert_eq!(
        event_line(&clear("a\"b\\c/\u{8}\t\n\u{c}\r\u{1}\u{1f}\u{7f}é世", "%3")),
        "{\"version\":1,\"event\":\"clear\",\"sessionId\":\"a\\\"b\\\\c/\\b\\t\\n\\f\\r\\u0001\\u001f\u{7f}é世\",\"paneId\":\"%3\"}"
    );
}

#[test]
fn written_events_are_read_back() {
    let mut odd = String::new();
    for code in 0..0x300u32 {
        odd.push(char::from_u32(code).unwrap());
    }
    odd.push('\u{2028}');
    odd.push('\u{1f600}');
    let events = [
        notify("$1", "%3", "tests failed", 1712600000000),
        notify("", "", "", 0),
        notify(&odd, "%1", &odd, u64::MAX),
        clear("$1", "%3"),
        clear(&odd, &odd),
    ];
    for event in &events {
        let line = event_line(event);
        assert!(!line.contains('\n'));
        assert!(line.chars().all(|c| c >= ' '));
        assert_eq!(recent_pane_event_from_line(&line).as_ref(), Some(event));
    }
}

#[test]
fn lines_that_are_no_events_are_left_out() {
    for line in [
        "",
        "null",
        "1",
        "[]",
        "{}",
        "not json",
        "{\"version\":1}",
        "{\"version\":1,\"event\":\"notify\"}",
        "{\"version\":1,\"event\":\"other\",\"sessionId\":\"$1\",\"paneId\":\"%1\"}",
        "{\"version\":2,\"event\":\"clear\",\"sessionId\":\"$1\",\"paneId\":\"%1\"}",
        "{\"version\":257,\"event\":\"clear\",\"sessionId\":\"$1\",\"paneId\":\"%1\"}",
        "{\"version\":\"1\",\"event\":\"clear\",\"sessionId\":\"$1\",\"paneId\":\"%1\"}",
        "{\"version\":1.0,\"event\":\"clear\",\"sessionId\":\"$1\",\"paneId\":\"%1\"}",
        "{\"version\":1,\"event\":\"clear\",\"sessionId\":1,\"paneId\":\"%1\"}",
        "{\"version\":1,\"event\":\"clear\",\"sessionId\":\"$1\",\"paneId\":null}",
        "{\"version\":1,\"event\":\"clear\",\"sessionId\":\"$1\",\"paneId\":\"%1\",\"more\":1}",
        "{\"version\":1,\"event\":\"clear\",\"sessionId\":\"$1\"}",
        "{\"version\":1,\"event\":\"notify\",\"sessionId\":\"$1\",\"paneId\":\"%1\"}",
        "{\"version\":1,\"event\":\"notify\",\"sessionId\":\"$1\",\"paneId\":\"%1\",\"paneDisplayText\":\"x\",\"notifyTime\":-1}",
        "{\"version\":1,\"event\":\"notify\",\"sessionId\":\"$1\",\"paneId\":\"%1\",\"paneDisplayText\":\"x\",\"notifyTime\":\"1\"}",
        "{\"version\":1,\"event\":\"clear\",\"sessionId\":\"$1\",\"paneId\":\"%1\"} x",
    ] {
        assert_eq!(recent_pane_event_from_line(line), None, "{line}");
    }
    assert_eq!(
        recent_pane_event_from_line(
            " { \"paneId\" : \"%1\", \"sessionId\" : \"\\u0024\\u0031\", \"event\" : \"clear\", \"version\" : 1 } "
        ),
        Some(clear("$1", "%1"))
    );
}

#[test]
fn members_are_read_as_an_event() {
    let member = |name: &str, value: JsonField| JsonMember {
        name: name.to_string(),
        value,
    };
    let text = |text: &str| JsonField::Text(text.to_string());
    let members = vec![
        member("event", text("notify")),
        member("version", JsonField::Number(Some(1))),
        member("notifyTime", JsonField::Number(Some(7))),
        member("paneDisplayText", text("t")),
        member("paneId", text("%1")),
        member("sessionId", text("$1")),
    ];
    assert_eq!(recent_pane_event_from_members(&members), Some(notify("$1", "%1", "t", 7)));

    let mut twice = members.clone();
    twice.push(member("paneId", text("%2")));
    assert_eq!(recent_pane_event_from_members(&twice), Some(notify("$1", "%2", "t", 7)));

    let mut other = members.clone();
    for value in [
        JsonField::Null,
        JsonField::Bool(true),
        JsonField::Number(None),
        text("7"),
        JsonField::Array,
        JsonField::Object,
    ] {
        other[2].value = value;
        assert_eq!(recent_pane_event_from_members(&other), None);
    }
    assert_eq!(recent_pane_event_from_members(&members[..5].to_vec()), None);
}

#[test]
fn identity_is_the_pair_of_ids() {
    let contents = log_of(&[
        notify("a:b", "c", "first", 100000),
        notify("a", "b:c", "second", 100000),
    ]);
    let panes = load(&contents, 100000);
    assert_eq!(panes.len(), 2);
    assert_eq!(panes[0].title, "first");
    assert_eq!(panes[1].title, "second");
}

#[test]
fn bad_lines_change_nothing_wherever_they_stand() {
    let good = [
        notify("$1", "%1", "one", 100000),
        notify("$1", "%2", "two", 100001),
        clear("$1", "%1"),
    ];
    let expected = load(&log_of(&good), 100002);
    assert_eq!(expected.len(), 1);
    for bad in [&b"\n"[..], b"  \t \r\n", b"garbage\n", b"\xff\xfe{}\n", b"{\"version\":1\n"] {
        for at in 0..=good.len() {
            let mut contents = log_of(&good[..at]);
            contents.extend_from_slice(bad);
            contents.extend_from_slice(&log_of(&good[at..]));
            assert_eq!(load(&contents, 100002), expected);
        }
    }
}

#[test]
fn carriage_returns_and_a_missing_last_newline_do_no_harm() {
    let mut contents = event_line(&notify("$1", "%1", "one", 100000)).into_bytes();
    contents.extend_from_slice(b"\r\n");
    contents.extend_from_slice(event_line(&notify("$1", "%2", "two", 100001)).as_bytes());
    let panes = load(&contents, 100001);
    assert_eq!(panes.len(), 2);
    assert_eq!(panes[0].pane_id, "%2");
    assert_eq!(panes[1].pane_id, "%1");
}

#[test]
fn entries_expire_after_two_minutes() {
    let contents = log_of(&[notify("$1", "%1", "one", 100000)]);
    assert_eq!(load(&contents, 99999).len(), 0);
    assert_eq!(load(&contents, 100000).len(), 1);
    assert_eq!(load(&contents, 220000).len(), 1);
    assert_eq!(load(&contents, 220001).len(), 0);

    let just_late = Timestamp { nanos: 220_000_000_001 };
    let panes = load_recent_panes(vec![log("l", &contents)], just_late).unwrap();
    assert!(panes.is_empty());
}

#[test]
fn panes_are_listed_latest_first_and_then_by_title_and_id() {
    let contents = log_of(&[
        notify("$1", "%4", "b", 100000),
        notify("$1", "%3", "a", 100000),
        notify("$1", "%2", "a", 100000),
        notify("$1", "%1", "z", 100001),
    ]);
    let ids: Vec<String> = load(&contents, 100001).into_iter().map(|pane| pane.pane_id).collect();
    assert_eq!(ids, vec!["%1", "%2", "%3", "%4"]);
}

#[test]
fn missing_files_are_passed_over_and_unreadable_ones_are_not() {
    let now = Timestamp::from_millis(100000);
    let contents = log_of(&[notify("$1", "%1", "one", 100000)]);
    let gone = LogRead {
        path: "gone".to_string(),
        outcome: ReadOutcome::Missing,
    };
    let broken = LogRead {
        path: "broken".to_string(),
        outcome: ReadOutcome::Failed("permission denied".to_string()),
    };
    let panes = load_recent_panes(vec![gone.clone(), log("l", &contents)], now).unwrap();
    assert_eq!(panes.len(), 1);
    assert_eq!(
        load_recent_panes(vec![gone, broken, log("l", &contents)], now),
        Err(RecentActivityError::EventLogWrite(
            "failed to open broken: permission denied".to_string()
        ))
    );
    assert_eq!(load_recent_panes(Vec::new(), now), Ok(Vec::new()));
}

#[test]
fn payloads_are_trimmed() {
    assert_eq!(
        notify_event_from_payload(&NotifyPayload {
            session_id: " $1\n".to_string(),
            pane_id: "\t%1".to_string(),
            pane_display_text: "\u{2003}tests failed\u{a0}".to_string(),
            notify_time: 5,
        }),
        Ok(NotifyEvent {
            session_id: "$1".to_string(),
            pane_id: "%1".to_string(),
            pane_display_text: "tests failed".to_string(),
            notify_time: 5,
        })
    );
    assert_eq!(
        clear_event_from_payload(&ClearPayload {
            session_id: "$1".to_string(),
            pane_id: " ".to_string(),
        }),
        Err(RecentActivityError::Usage("paneId must be a non-empty string".to_string()))
    );
    assert_eq!(
        clear_event_from_payload(&ClearPayload {
            session_id: " $1 ".to_string(),
            pane_id: " %1 ".to_string(),
        }),
        Ok(ClearEvent {
            session_id: "$1".to_string(),
            pane_id: "%1".to_string(),
        })
    );
    assert_eq!(require_non_empty("x", " y "), Ok("y".to_string()));
}

#[test]
fn white_space_is_what_the_standard_library_takes_for_it() {
    for code in 0..=0x10ffffu32 {
        if let Some(c) = char::from_u32(code) {
            assert_eq!(vmux::text::is_white_space_char(c), c.is_whitespace());
        }
    }
}

#[test]
fn notify_and_clear_make_lines_for_the_log() {
    let payload = NotifyPayload {
        session_id: "$1".to_string(),
        pane_id: "%1".to_string(),
        pane_display_text: "t".to_string(),
        notify_time: 9,
    };
    let line = run_notify("payload.json", Ok(payload.clone())).unwrap();
    assert_eq!(line, event_line(&notify("$1", "%1", "t", 9)));
    let line = run_clear(
        "payload.json",
        Ok(ClearPayload {
            session_id: "$1".to_string(),
            pane_id: "%1".to_string(),
        }),
    )
    .unwrap();
    assert_eq!(line, event_line(&clear("$1", "%1")));

    assert_eq!(
        run_notify("", Ok(payload)),
        Err(RecentActivityError::Usage("payload path is required".to_string()))
    );
    assert_eq!(
        run_clear("", Err(PayloadError::Unreadable("x".to_string()))),
        Err(RecentActivityError::Usage("payload path is required".to_string()))
    );
    assert_eq!(
        run_notify("p", Err(PayloadError::Unreadable("no such file".to_string()))),
        Err(RecentActivityError::EventLogWrite(
            "failed to read payload p: no such file".to_string()
        ))
    );
    assert_eq!(
        run_clear("p", Err(PayloadError::Malformed("missing field".to_string()))),
        Err(RecentActivityError::Json("missing field".to_string()))
    );
    assert_eq!(
        vmux::run_notify("p", Err(PayloadError::Malformed("bad".to_string()))),
        Err(VmuxError::RecentActivity(RecentActivityError::Json("bad".to_string())))
    );
    assert_eq!(
        vmux::run_clear(
            "p",
            Ok(ClearPayload {
                session_id: "$1".to_string(),
                pane_id: "%1".to_string(),
            })
        ),
        Ok(event_line(&clear("$1", "%1")))
    );
}

#[test]
fn errors_are_put_in_words() {
    assert_eq!(
        RecentActivityError::Usage("a".to_string()).message(),
        "recent activity usage error: a"
    );
    assert_eq!(RecentActivityError::Io("a".to_string()).message(), "recent activity io error: a");
    assert_eq!(
        RecentActivityError::Json("a".to_string()).message(),
        "recent activity payload parse error: a"
    );
    assert_eq!(
        RecentActivityError::EventLogWrite("a".to_string()).message(),
        "recent activity event log error: a"
    );
    assert_eq!(
        open_error("path", "denied"),
        RecentActivityError::EventLogWrite("failed to open path: denied".to_string())
    );
}
