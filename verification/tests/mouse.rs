use vmux::input::{process_host_mouse_event, MouseRoutingResult};
use vmux::layout::Rect;
use vmux::mouse::{
    find_mouse_prefix, mouse_button_from_code, mouse_modifiers_from_code, mouse_prefix_suffix_len,
    parse_sgr_mouse_sequence, tmux_mouse_button_code, tmux_mouse_event_to_bytes,
    tmux_mouse_modifiers, KeyModifiers, MouseButton, MouseEvent, MouseEventKind,
    ParsedSgrMouseSequence,
};
use vmux::sidebar::build_sidebar_rows;
use vmux::state::AppState;
use vmux::tmux::TmuxSession;

const NONE: KeyModifiers = KeyModifiers {
    shift: false,
    alt: false,
    control: false,
};
const SHIFT: KeyModifiers = KeyModifiers {
    shift: true,
    alt: false,
    control: false,
};
const ALT: KeyModifiers = KeyModifiers {
    shift: false,
    alt: true,
    control: false,
};

#[test]
fn parse_sgr_mouse_sequence_decodes_press_release_move_and_modifiers() {
    match parse_sgr_mouse_sequence(b"\x1b[<0;26;4M") {
        ParsedSgrMouseSequence::Complete { event, consumed } => {
            assert_eq!(consumed, 10);
            assert_eq!(
                event,
                MouseEvent {
                    kind: MouseEventKind::Down(MouseButton::Left),
                    column: 25,
                    row: 3,
                    modifiers: NONE,
                }
            );
        }
        _ => panic!("expected complete mouse press"),
    }

    match parse_sgr_mouse_sequence(b"\x1b[<3;26;4m") {
        ParsedSgrMouseSequence::Complete { event, .. } => {
            assert_eq!(
                event,
                MouseEvent {
                    kind: MouseEventKind::Up(MouseButton::Left),
                    column: 25,
                    row: 3,
                    modifiers: NONE,
                }
            );
        }
        _ => panic!("expected complete mouse release"),
    }

    match parse_sgr_mouse_sequence(b"\x1b[<68;31;5M") {
        ParsedSgrMouseSequence::Complete { event, .. } => {
            assert_eq!(event.kind, MouseEventKind::ScrollUp);
            assert_eq!(event.column, 30);
            assert_eq!(event.row, 4);
            assert_eq!(event.modifiers, SHIFT);
        }
        _ => panic!("expected complete mouse scroll"),
    }

    match parse_sgr_mouse_sequence(b"\x1b[<35;31;5M") {
        ParsedSgrMouseSequence::Complete { event, .. } => {
            assert_eq!(event.kind, MouseEventKind::Moved);
            assert_eq!(event.column, 30);
            assert_eq!(event.row, 4);
        }
        _ => panic!("expected complete mouse move"),
    }
}

#[test]
fn mouse_prefix_suffix_len_preserves_partial_mouse_prefix_without_swallowing_escape() {
    assert_eq!(mouse_prefix_suffix_len(b"hello"), 0);
    assert_eq!(mouse_prefix_suffix_len(b"\x1b"), 0);
    assert_eq!(mouse_prefix_suffix_len(b"\x1b["), 2);
    assert_eq!(mouse_prefix_suffix_len(b"abc\x1b[<"), 3);
    assert_eq!(find_mouse_prefix(b"abc\x1b[<0;1;1M"), Some(3));
    assert!(matches!(
        parse_sgr_mouse_sequence(b"\x1b[<0;1"),
        ParsedSgrMouseSequence::Incomplete
    ));
}

#[test]
fn tmux_mouse_event_to_bytes_encodes_pane_relative_coordinates_and_clamps_capture() {
    let pane = Rect { x: 24, y: 1, width: 50, height: 10 };

    assert_eq!(
        tmux_mouse_event_to_bytes(
            &MouseEvent {
                kind: MouseEventKind::Down(MouseButton::Left),
                column: 25,
                row: 3,
                modifiers: NONE,
            },
            pane,
        ),
        b"\x1b[<0;2;3M".to_vec(),
    );
    assert_eq!(
        tmux_mouse_event_to_bytes(
            &MouseEvent {
                kind: MouseEventKind::Up(MouseButton::Left),
                column: 25,
                row: 3,
                modifiers: NONE,
            },
            pane,
        ),
        b"\x1b[<3;2;3m".to_vec(),
    );
    assert_eq!(
        tmux_mouse_event_to_bytes(
            &MouseEvent {
                kind: MouseEventKind::ScrollUp,
                column: 30,
                row: 4,
                modifiers: SHIFT,
            },
            pane,
        ),
        b"\x1b[<68;7;4M".to_vec(),
    );
    assert_eq!(
        tmux_mouse_event_to_bytes(
            &MouseEvent {
                kind: MouseEventKind::Moved,
                column: 30,
                row: 4,
                modifiers: ALT,
            },
            pane,
        ),
        b"\x1b[<43;7;4M".to_vec(),
    );
    assert_eq!(
        tmux_mouse_event_to_bytes(
            &MouseEvent {
                kind: MouseEventKind::Up(MouseButton::Left),
                column: 999,
                row: 999,
                modifiers: NONE,
            },
            pane,
        ),
        b"\x1b[<3;50;10m".to_vec(),
    );
}

#[test]
fn process_host_mouse_event_clears_capture_on_release_outside_pane() {
    let pane_area = Rect { x: 0, y: 0, width: 76, height: 10 };
    let sidebar_area = Rect { x: 76, y: 0, width: 24, height: 10 };
    let mut state = AppState::new(vec![TmuxSession {
        id: "demo".to_string(),
        name: "demo".to_string(),
        windows: None,
        attached: true,
    }]);
    let rows = build_sidebar_rows(&state);
    let mut tmux_mouse_captured = true;

    let routing = process_host_mouse_event(
        &MouseEvent {
            kind: MouseEventKind::Up(MouseButton::Left),
            column: 200,
            row: 200,
            modifiers: NONE,
        },
        pane_area,
        sidebar_area,
        &rows,
        0,
        &mut state,
        &mut tmux_mouse_captured,
    );

    assert_eq!(routing.result, MouseRoutingResult::Handled);
    assert!(!tmux_mouse_captured);
    assert_eq!(routing.send, Some(b"\x1b[<3;76;10m".to_vec()));
}

#[test]
fn process_host_mouse_event_reports_unclaimed_mouse_sequences() {
    let pane_area = Rect { x: 0, y: 0, width: 76, height: 10 };
    let sidebar_area = Rect { x: 76, y: 0, width: 24, height: 10 };
    let mut state = AppState::new(vec![TmuxSession {
        id: "demo".to_string(),
        name: "demo".to_string(),
        windows: None,
        attached: true,
    }]);
    let rows = build_sidebar_rows(&state);
    let mut tmux_mouse_captured = false;

    let routing = process_host_mouse_event(
        &MouseEvent {
            kind: MouseEventKind::Moved,
            column: 200,
            row: 200,
            modifiers: NONE,
        },
        pane_area,
        sidebar_area,
        &rows,
        0,
        &mut state,
        &mut tmux_mouse_captured,
    );

    assert_eq!(routing.result, MouseRoutingResult::NotHandled);
    assert_eq!(routing.send, None);
    assert!(!routing.restart_pane);
}

#[test]
fn malformed_mouse_reports_are_told_from_unfinished_ones() {
    for bytes in [
        &b"hello"[..],
        b"\x1b[<M",
        b"\x1b[<0;1M",
        b"\x1b[<0;1;1;1M",
        b"\x1b[<0;0;1M",
        b"\x1b[<0;1;0M",
        b"\x1b[<70000;1;1M",
        b"\x1b[<3;1;1M",
        b"\x1b[<0;1;1x",
        b"\x1b[<0;;1M",
    ] {
        assert_eq!(parse_sgr_mouse_sequence(bytes), ParsedSgrMouseSequence::Invalid);
    }
    for bytes in [&b"\x1b[<"[..], b"\x1b[<0", b"\x1b[<0;12;7"] {
        assert_eq!(parse_sgr_mouse_sequence(bytes), ParsedSgrMouseSequence::Incomplete);
    }
}

#[test]
fn report_may_be_followed_by_other_bytes() {
    match parse_sgr_mouse_sequence(b"\x1b[<34;65535;1Mabc") {
        ParsedSgrMouseSequence::Complete { event, consumed } => {
            assert_eq!(consumed, 14);
            assert_eq!(event.kind, MouseEventKind::Drag(MouseButton::Right));
            assert_eq!(event.column, 65534);
            assert_eq!(event.row, 0);
        }
        _ => panic!("expected a report"),
    }
}

#[test]
fn button_and_modifier_codes_go_both_ways() {
    for button in [MouseButton::Left, MouseButton::Middle, MouseButton::Right] {
        assert_eq!(mouse_button_from_code(tmux_mouse_button_code(button)), Some(button));
    }
    assert_eq!(mouse_button_from_code(3), None);
    assert_eq!(mouse_button_from_code(0b1101), Some(MouseButton::Middle));
    for bits in 0..8u8 {
        let modifiers = KeyModifiers {
            shift: bits & 1 != 0,
            alt: bits & 2 != 0,
            control: bits & 4 != 0,
        };
        assert_eq!(tmux_mouse_modifiers(modifiers), (bits as u16) << 2);
        assert_eq!(mouse_modifiers_from_code(tmux_mouse_modifiers(modifiers)), modifiers);
    }
}

#[test]
fn forwarded_events_are_read_back() {
    let pane = Rect { x: 2, y: 3, width: 40, height: 12 };
    let kinds = [
        MouseEventKind::Down(MouseButton::Left),
        MouseEventKind::Down(MouseButton::Middle),
        MouseEventKind::Down(MouseButton::Right),
        MouseEventKind::Drag(MouseButton::Left),
        MouseEventKind::Drag(MouseButton::Middle),
        MouseEventKind::Drag(MouseButton::Right),
        MouseEventKind::Up(MouseButton::Left),
        MouseEventKind::Moved,
        MouseEventKind::ScrollUp,
        MouseEventKind::ScrollDown,
        MouseEventKind::ScrollLeft,
        MouseEventKind::ScrollRight,
    ];
    for kind in kinds {
        for modifiers in [NONE, SHIFT, ALT] {
            let event = MouseEvent { kind, column: 20, row: 9, modifiers };
            let bytes = tmux_mouse_event_to_bytes(&event, pane);
            assert_eq!(
                parse_sgr_mouse_sequence(&bytes),
                ParsedSgrMouseSequence::Complete {
                    event: MouseEvent { kind, column: 18, row: 6, modifiers },
                    consumed: bytes.len(),
                }
            );
        }
    }
}
