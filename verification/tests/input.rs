use vmux::input::{drain_host_input, DrainOutcome, HostAction};
use vmux::layout::Rect;
use vmux::panes::{RecentPane, Timestamp};
use vmux::sidebar::{build_sidebar_rows, selected_sidebar_row_index, SidebarRow};
use vmux::state::AppState;
use vmux::tmux::TmuxSession;

const PANE: Rect = Rect { x: 0, y: 0, width: 76, height: 10 };
const SIDEBAR: Rect = Rect { x: 76, y: 0, width: 24, height: 10 };

fn two_sessions() -> AppState {
    let mut state = AppState::new(
        ["alpha", "beta"]
            .iter()
            .map(|name| TmuxSession {
                id: format!("${name}"),
                name: name.to_string(),
                windows: None,
                attached: false,
            })
            .collect(),
    );
    state.observe_recent_panes(vec![RecentPane {
        session_id: "$beta".to_string(),
        pane_id: "%7".to_string(),
        title: "logs".to_string(),
        observed_at: Timestamp::from_secs(1),
    }]);
    state
}

struct Host {
    pending: Vec<u8>,
    state: AppState,
    captured: bool,
}

impl Host {
    fn new() -> Host {
        Host {
            pending: Vec::new(),
            state: two_sessions(),
            captured: false,
        }
    }

    fn drain(&mut self, bytes: &[u8]) -> DrainOutcome {
        self.pending.extend_from_slice(bytes);
        let rows = build_sidebar_rows(&self.state);
        drain_host_input(
            &mut self.pending,
            PANE,
            SIDEBAR,
            &rows,
            0,
            &mut self.state,
            &mut self.captured,
        )
    }
}

fn sent(outcome: &DrainOutcome) -> Vec<u8> {
    let mut bytes = Vec::new();
    for action in &outcome.actions {
        if let HostAction::Send(part) = action {
            bytes.extend_from_slice(part);
        }
    }
    bytes
}

#[test]
fn keys_go_to_tmux_as_they_are() {
    for bytes in [&b"q"[..], b"\x1b", b"\x1b\r", b"\x1bOA", b"\x1b[A", b"\xc3\xa9", b"\x00\xff"] {
        let mut host = Host::new();
        let outcome = host.drain(bytes);
        assert_eq!(outcome.actions, vec![HostAction::Send(bytes.to_vec())]);
        assert!(!outcome.exit);
        assert!(host.pending.is_empty());
    }
    let mut host = Host::new();
    assert_eq!(host.drain(b"").actions, Vec::new());
}

#[test]
fn unclaimed_reports_go_to_tmux_as_they_are() {
    let mut host = Host::new();
    let outcome = host.drain(b"\x1b[<0;200;200M");
    assert_eq!(outcome.actions, vec![HostAction::Send(b"\x1b[<0;200;200M".to_vec())]);
}

#[test]
fn reports_in_the_pane_are_made_relative_to_it() {
    let mut host = Host::new();
    let outcome = host.drain(b"ab\x1b[<0;5;3Mcd\x1b[<0;90;200mx");
    assert_eq!(
        outcome.actions,
        vec![
            HostAction::Send(b"ab".to_vec()),
            HostAction::Send(b"\x1b[<0;5;3M".to_vec()),
            HostAction::Send(b"cd".to_vec()),
            HostAction::Send(b"\x1b[<3;76;10m".to_vec()),
            HostAction::Send(b"x".to_vec()),
        ]
    );
    assert!(!host.captured);
}

#[test]
fn pane_holds_the_mouse_from_press_to_release() {
    let mut host = Host::new();
    host.drain(b"\x1b[<2;5;3M");
    assert!(host.captured);
    let outcome = host.drain(b"\x1b[<34;90;200M");
    assert_eq!(outcome.actions, vec![HostAction::Send(b"\x1b[<34;76;10M".to_vec())]);
    assert!(host.captured);
    host.drain(b"\x1b[<2;90;200m");
    assert!(!host.captured);
    let outcome = host.drain(b"\x1b[<35;90;200M");
    assert_eq!(outcome.actions, vec![HostAction::Send(b"\x1b[<35;90;200M".to_vec())]);
}

#[test]
fn unfinished_reports_wait_for_the_rest() {
    let mut host = Host::new();
    assert_eq!(host.drain(b"a\x1b[").actions, vec![HostAction::Send(b"a".to_vec())]);
    assert_eq!(host.pending, b"\x1b[".to_vec());
    assert_eq!(host.drain(b"<0;5").actions, Vec::new());
    assert_eq!(host.pending, b"\x1b[<0;5".to_vec());
    let outcome = host.drain(b";3M");
    assert_eq!(outcome.actions, vec![HostAction::Send(b"\x1b[<0;5;3M".to_vec())]);
    assert!(host.pending.is_empty());
}

#[test]
fn what_only_looks_like_a_report_goes_to_tmux() {
    let mut host = Host::new();
    let outcome = host.drain(b"\x1b[<0;5x\x1b[<9;9q");
    assert_eq!(sent(&outcome), b"\x1b[<0;5x\x1b[<9;9q".to_vec());
    assert!(host.pending.is_empty());
}

#[test]
fn click_on_a_session_selects_it_and_restarts_the_client() {
    let mut host = Host::new();
    let rows = build_sidebar_rows(&host.state);
    assert_eq!(rows[2], SidebarRow::Session { session_index: 1 });
    let outcome = host.drain(b"\x1b[<0;80;3M");
    assert_eq!(outcome.actions, vec![HostAction::RestartPane]);
    assert_eq!(host.state.selected, 1);
    assert!(host.state.selected_pane_target().is_none());
    assert_eq!(selected_sidebar_row_index(&host.state, &rows), Some(2));

    let outcome = host.drain(b"\x1b[<0;80;3M");
    assert_eq!(outcome.actions, Vec::new());
}

#[test]
fn click_on_a_pane_selects_it_and_restarts_the_client() {
    let mut host = Host::new();
    let rows = build_sidebar_rows(&host.state);
    let outcome = host.drain(b"\x1b[<0;80;4M");
    assert_eq!(outcome.actions, vec![HostAction::RestartPane]);
    assert_eq!(host.state.selected, 1);
    assert_eq!(host.state.selected_pane_target().unwrap().pane_id, "%7");
    assert_eq!(selected_sidebar_row_index(&host.state, &rows), Some(3));
    assert_eq!(host.drain(b"\x1b[<0;80;4M").actions, Vec::new());
    assert_eq!(host.drain(b"\x1b[<0;80;3M").actions, vec![HostAction::RestartPane]);
    assert!(host.state.selected_pane_target().is_none());
}

#[test]
fn other_events_in_the_sidebar_select_nothing() {
    for bytes in [
        &b"\x1b[<2;80;3M"[..],
        b"\x1b[<0;80;3m",
        b"\x1b[<64;80;3M",
        b"\x1b[<35;80;3M",
        b"\x1b[<0;80;2M",
        b"\x1b[<0;80;6M",
    ] {
        let mut host = Host::new();
        let outcome = host.drain(bytes);
        assert_eq!(outcome.actions, vec![HostAction::Send(bytes.to_vec())]);
        assert_eq!(host.state.selected, 0);
    }
}

#[test]
fn click_on_the_exit_button_leaves_the_rest_alone() {
    let mut host = Host::new();
    let outcome = host.drain(b"x\x1b[<0;80;10Mrest");
    assert!(outcome.exit);
    assert_eq!(outcome.actions, vec![HostAction::Send(b"x".to_vec())]);
    assert_eq!(host.pending, b"rest".to_vec());
}

#[test]
fn input_in_pieces_does_what_it_does_as_a_whole() {
    let whole = b"ab\x1b[<0;5;3M\x1b[<0;90;200m\x1b[<0;5xcd\x1b[<0;80;3Mz\x1b[<64;7;7M";
    let mut once = Host::new();
    let expected = sent(&once.drain(whole));
    for at in 0..=whole.len() {
        if at > 0 && whole[at - 1] == 0x1b {
            continue;
        }
        let mut host = Host::new();
        let mut bytes = sent(&host.drain(&whole[..at]));
        bytes.extend_from_slice(&sent(&host.drain(&whole[at..])));
        assert_eq!(bytes, expected);
        assert_eq!(host.state.selected, once.state.selected);
        assert_eq!(host.captured, once.captured);
        assert_eq!(host.pending, once.pending);
    }
}
