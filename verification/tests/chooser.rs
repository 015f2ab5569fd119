use vmux::chooser::{
    after_frame, choose_among, note_child_status, poll_is_due, ChildStatus, Chooser, PanePlan,
};
use vmux::input::HostAction;
use vmux::layout::Rect;
use vmux::panes::{RecentPane, Timestamp};
use vmux::recent_activity::{
    load_recent_panes, ClearPayload, LogRead, NotifyPayload, ReadOutcome,
};
use vmux::tmux::TmuxSession;
use vmux::VmuxError;

fn start(names: &[&str]) -> Chooser {
    choose_among(
        names
            .iter()
            .map(|name| TmuxSession {
                id: format!("${name}"),
                name: name.to_string(),
                windows: None,
                attached: false,
            })
            .collect(),
    )
    .unwrap()
}

fn pane(session_id: &str, pane_id: &str, title: &str) -> RecentPane {
    RecentPane {
        session_id: session_id.to_string(),
        pane_id: pane_id.to_string(),
        title: title.to_string(),
        observed_at: Timestamp::from_secs(1),
    }
}

#[test]
fn without_sessions_there_is_nothing_to_choose() {
    assert!(choose_among(Vec::new()).is_none());
}

#[test]
fn first_frame_starts_a_client_for_the_selection() {
    let mut chooser = start(&["b", "a"]);
    let frame = chooser.begin_frame(100, 10);
    assert_eq!(frame.pane_area, Rect { x: 0, y: 0, width: 76, height: 10 });
    assert_eq!(frame.sidebar_area, Rect { x: 76, y: 0, width: 24, height: 10 });
    assert_eq!(
        frame.pane,
        PanePlan::Spawn {
            session_id: "$a".to_string(),
            pane_id: None,
        }
    );
    assert_eq!(chooser.begin_frame(100, 10).pane, PanePlan::Keep);
}

#[test]
fn client_is_resized_with_the_terminal() {
    let mut chooser = start(&["a"]);
    chooser.begin_frame(100, 10);
    assert_eq!(
        chooser.begin_frame(120, 12).pane,
        PanePlan::Resize {
            width: 96,
            height: 12,
        }
    );
    assert_eq!(chooser.begin_frame(120, 12).pane, PanePlan::Keep);
}

#[test]
fn selection_by_click_gets_a_client_of_its_own() {
    let mut chooser = start(&["a", "b"]);
    chooser.refresh_recent_activity(vec![pane("$b", "%7", "logs")]);
    let frame = chooser.begin_frame(100, 10);
    chooser.draw_sidebar(&frame);
    chooser.feed(&b"\x1b[<0;80;".to_vec());
    chooser.feed(&b"4M".to_vec());
    let outcome = chooser.handle_input(&frame);
    assert_eq!(outcome.actions, vec![HostAction::RestartPane]);
    assert!(!outcome.exit);
    assert!(!chooser.has_pane);
    assert_eq!(
        chooser.begin_frame(100, 10).pane,
        PanePlan::Spawn {
            session_id: "$b".to_string(),
            pane_id: Some("%7".to_string()),
        }
    );
}

#[test]
fn cleared_pane_is_no_longer_selected() {
    let mut chooser = start(&["a"]);
    chooser.refresh_recent_activity(vec![pane("$a", "%7", "logs")]);
    let frame = chooser.begin_frame(100, 10);
    chooser.feed(&b"\x1b[<0;80;2M".to_vec());
    chooser.handle_input(&frame);
    assert!(chooser.state.selected_pane_target().is_some());
    chooser.refresh_recent_activity(vec![pane("$a", "%7", "logs"), pane("$a", "%8", "x")]);
    assert!(chooser.state.selected_pane_target().is_some());
    chooser.refresh_recent_activity(vec![pane("$a", "%8", "x")]);
    assert!(chooser.state.selected_pane_target().is_none());
}

#[test]
fn sidebar_is_scrolled_to_the_selection() {
    let names: Vec<String> = (0..9).map(|n| format!("s{n}")).collect();
    let mut chooser = start(&names.iter().map(|name| name.as_str()).collect::<Vec<&str>>());
    let frame = chooser.begin_frame(60, 5);
    let drawn = chooser.draw_sidebar(&frame);
    assert_eq!(drawn.body, Rect { x: 36, y: 0, width: 24, height: 4 });
    assert_eq!(drawn.exit_button, Rect { x: 36, y: 4, width: 24, height: 1 });
    assert_eq!((drawn.offset, drawn.selected), (0, 0));
    assert_eq!(drawn.items.len(), 17);
    assert_eq!(drawn.items[0].spans[0].content, "s0");
    assert_eq!(drawn.items[1].spans.len(), 0);

    chooser.state.select_session(8);
    let frame = chooser.begin_frame(60, 5);
    let drawn = chooser.draw_sidebar(&frame);
    assert_eq!((drawn.offset, drawn.selected), (13, 16));
    assert_eq!(chooser.list_offset, 13);
}

#[test]
fn log_is_polled_twice_a_second() {
    assert!(!poll_is_due(499_999_999));
    assert!(poll_is_due(500_000_000));
}

#[test]
fn end_of_the_client_is_told_once_and_ends_the_chooser() {
    let mut exited = false;
    assert!(!note_child_status(&mut exited, ChildStatus::Running));
    assert!(!exited);
    assert!(note_child_status(&mut exited, ChildStatus::Exited));
    assert!(exited);
    assert!(!note_child_status(&mut exited, ChildStatus::Exited));
    let mut exited = false;
    assert!(note_child_status(&mut exited, ChildStatus::Unknown));

    assert_eq!(after_frame(false, false), Ok(false));
    assert_eq!(after_frame(false, true), Ok(true));
    assert_eq!(
        after_frame(true, true),
        Err(VmuxError::Terminal("embedded tmux client exited".to_string()))
    );
}

#[test]
fn notified_pane_is_shown_until_it_is_cleared() {
    let now = Timestamp::from_millis(1_000_000);
    let mut log = Vec::new();
    let mut shown = |chooser: &mut Chooser, line: String| -> Vec<String> {
        log.extend_from_slice(line.as_bytes());
        log.push(b'\n');
        let reads = vec![LogRead {
            path: "log".to_string(),
            outcome: ReadOutcome::Contents(log.clone()),
        }];
        chooser.refresh_recent_activity(load_recent_panes(reads, now).unwrap());
        let frame = chooser.begin_frame(100, 20);
        chooser
            .draw_sidebar(&frame)
            .items
            .iter()
            .map(|line| line.spans.iter().map(|span| span.content.as_str()).collect())
            .collect()
    };
    let mut chooser = start(&["a", "b"]);
    let notify = vmux::run_notify(
        "payload.json",
        Ok(NotifyPayload {
            session_id: "$b".to_string(),
            pane_id: "%3".to_string(),
            pane_display_text: "tests failed".to_string(),
            notify_time: 999_000,
        }),
    );
    assert_eq!(
        shown(&mut chooser, notify.unwrap()),
        vec!["a", "", "b", "  tests failed"]
    );
    let clear = vmux::run_clear(
        "payload.json",
        Ok(ClearPayload {
            session_id: "$b".to_string(),
            pane_id: "%3".to_string(),
        }),
    );
    assert_eq!(shown(&mut chooser, clear.unwrap()), vec!["a", "", "b"]);
}
