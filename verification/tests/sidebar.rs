use vmux::layout::Rect;
use vmux::panes::{RecentPane, Timestamp};
use vmux::sidebar::{
    build_sidebar_rows, selected_sidebar_row_index, session_label_line, sidebar_item,
    sidebar_mouse_target_from_point, sync_sidebar_list_offset, SidebarMouseTarget, SidebarRow,
};
use vmux::state::AppState;
use vmux::styled::Color;
use vmux::tmux::TmuxSession;

#[test]
fn session_label_line_shows_attached_suffix() {
    let session = TmuxSession {
        id: "demo".to_string(),
        name: "demo".to_string(),
        windows: Some(2),
        attached: true,
    };

    let line = session_label_line(&session);
    assert_eq!(line.spans[0].content, "demo");
    assert_eq!(line.spans[1].content, " (attached)");
}

#[test]
fn build_sidebar_rows_groups_panes_under_sessions_with_spacers() {
    let mut state = AppState::new(vec![
        TmuxSession {
            id: "beta".to_string(),
            name: "beta".to_string(),
            windows: None,
            attached: false,
        },
        TmuxSession {
            id: "alpha".to_string(),
            name: "alpha".to_string(),
            windows: None,
            attached: true,
        },
    ]);
    let now = Timestamp::from_secs(1_000);
    state.observe_recent_panes(vec![
        RecentPane {
            session_id: "alpha".to_string(),
            pane_id: "%1".to_string(),
            title: "server logs".to_string(),
            observed_at: now,
        },
        RecentPane {
            session_id: "beta".to_string(),
            pane_id: "%2".to_string(),
            title: "worker".to_string(),
            observed_at: now,
        },
    ]);

    let rows = build_sidebar_rows(&state);
    assert_eq!(
        rows,
        vec![
            SidebarRow::Session { session_index: 0 },
            SidebarRow::Pane {
                session_index: 0,
                pane: RecentPane {
                    session_id: "alpha".to_string(),
                    pane_id: "%1".to_string(),
                    title: "server logs".to_string(),
                    observed_at: now,
                },
            },
            SidebarRow::Spacer,
            SidebarRow::Session { session_index: 1 },
            SidebarRow::Pane {
                session_index: 1,
                pane: RecentPane {
                    session_id: "beta".to_string(),
                    pane_id: "%2".to_string(),
                    title: "worker".to_string(),
                    observed_at: now,
                },
            },
        ]
    );
}

#[test]
fn sidebar_mouse_target_hits_rows_and_exit_footer() {
    let sidebar_body = Rect { x: 2, y: 1, width: 20, height: 5 };
    let sidebar_exit = Rect { x: 2, y: 6, width: 20, height: 1 };
    let rows = vec![
        SidebarRow::Session { session_index: 0 },
        SidebarRow::Pane {
            session_index: 0,
            pane: RecentPane {
                session_id: "alpha".to_string(),
                pane_id: "%1".to_string(),
                title: "server logs".to_string(),
                observed_at: Timestamp::from_secs(0),
            },
        },
        SidebarRow::Spacer,
        SidebarRow::Session { session_index: 1 },
        SidebarRow::Pane {
            session_index: 1,
            pane: RecentPane {
                session_id: "beta".to_string(),
                pane_id: "%2".to_string(),
                title: "worker".to_string(),
                observed_at: Timestamp::from_secs(0),
            },
        },
    ];

    assert_eq!(
        sidebar_mouse_target_from_point(sidebar_body, sidebar_exit, 2, 1, &rows, 0),
        Some(SidebarMouseTarget::Row(0)),
    );
    assert_eq!(
        sidebar_mouse_target_from_point(sidebar_body, sidebar_exit, 10, 2, &rows, 0),
        Some(SidebarMouseTarget::Row(1)),
    );
    assert_eq!(
        sidebar_mouse_target_from_point(sidebar_body, sidebar_exit, 8, 4, &rows, 0),
        Some(SidebarMouseTarget::Row(3)),
    );
    assert_eq!(
        sidebar_mouse_target_from_point(sidebar_body, sidebar_exit, 8, 6, &rows, 0),
        Some(SidebarMouseTarget::Exit),
    );
}

#[test]
fn sidebar_mouse_target_ignores_out_of_bounds_clicks_and_spacers() {
    let sidebar_body = Rect { x: 2, y: 1, width: 20, height: 3 };
    let sidebar_exit = Rect { x: 2, y: 4, width: 20, height: 1 };
    let rows = vec![
        SidebarRow::Session { session_index: 0 },
        SidebarRow::Spacer,
        SidebarRow::Session { session_index: 1 },
    ];

    assert_eq!(
        sidebar_mouse_target_from_point(sidebar_body, sidebar_exit, 1, 1, &rows, 0),
        None,
    );
    assert_eq!(
        sidebar_mouse_target_from_point(sidebar_body, sidebar_exit, 25, 1, &rows, 0),
        None,
    );
    assert_eq!(
        sidebar_mouse_target_from_point(sidebar_body, sidebar_exit, 10, 5, &rows, 0),
        None,
    );
    assert_eq!(
        sidebar_mouse_target_from_point(sidebar_body, sidebar_exit, 5, 2, &rows, 0),
        None,
    );
}

#[test]
fn sidebar_mouse_target_applies_list_offset() {
    let sidebar_body = Rect { x: 2, y: 1, width: 20, height: 3 };
    let sidebar_exit = Rect { x: 2, y: 4, width: 20, height: 1 };
    let rows = vec![
        SidebarRow::Session { session_index: 0 },
        SidebarRow::Pane {
            session_index: 0,
            pane: RecentPane {
                session_id: "alpha".to_string(),
                pane_id: "%1".to_string(),
                title: "server logs".to_string(),
                observed_at: Timestamp::from_secs(0),
            },
        },
        SidebarRow::Spacer,
        SidebarRow::Session { session_index: 1 },
    ];

    assert_eq!(
        sidebar_mouse_target_from_point(sidebar_body, sidebar_exit, 8, 1, &rows, 1),
        Some(SidebarMouseTarget::Row(1)),
    );
    assert_eq!(
        sidebar_mouse_target_from_point(sidebar_body, sidebar_exit, 8, 2, &rows, 1),
        None,
    );
}

#[test]
fn sidebar_list_offset_keeps_selected_row_visible() {
    let mut offset: usize = 0;
    sync_sidebar_list_offset(&mut offset, 5, 3, 10);
    assert_eq!(offset, 3);
    sync_sidebar_list_offset(&mut offset, 1, 3, 10);
    assert_eq!(offset, 1);
}

#[test]
fn no_more_than_five_panes_are_shown_under_a_session() {
    let mut state = AppState::new(vec![TmuxSession {
        id: "$1".to_string(),
        name: "one".to_string(),
        windows: None,
        attached: false,
    }]);
    state.observe_recent_panes(
        (0..8u64)
            .map(|n| RecentPane {
                session_id: "$1".to_string(),
                pane_id: format!("%{n}"),
                title: format!("t{n}"),
                observed_at: Timestamp::from_secs(n),
            })
            .collect(),
    );
    let rows = build_sidebar_rows(&state);
    assert_eq!(rows.len(), 6);
    let ids: Vec<String> = rows
        .iter()
        .filter_map(|row| match row {
            SidebarRow::Pane { pane, .. } => Some(pane.pane_id.clone()),
            _ => None,
        })
        .collect();
    assert_eq!(ids, vec!["%7", "%6", "%5", "%4", "%3"]);

    let last = RecentPane {
        session_id: "$1".to_string(),
        pane_id: "%0".to_string(),
        title: "t0".to_string(),
        observed_at: Timestamp::from_secs(0),
    };
    state.select_pane(0, &last);
    assert_eq!(selected_sidebar_row_index(&state, &rows), Some(0));
}

#[test]
fn list_is_scrolled_no_more_than_needed() {
    for items in 1..12usize {
        for visible in 1..8usize {
            for selected in 0..items {
                for start in 0..14usize {
                    let mut offset = start;
                    sync_sidebar_list_offset(&mut offset, selected, visible, items);
                    assert!(offset <= selected && selected < offset + visible);
                    assert!(offset <= items.saturating_sub(visible));
                    let seen = start <= selected && selected < start + visible;
                    if seen && start <= items.saturating_sub(visible) {
                        assert_eq!(offset, start);
                    }
                }
            }
        }
    }
    let mut offset = 7;
    sync_sidebar_list_offset(&mut offset, 0, 0, 10);
    assert_eq!(offset, 7);
    sync_sidebar_list_offset(&mut offset, 0, 3, 0);
    assert_eq!(offset, 7);
}

#[test]
fn rows_are_labelled() {
    let sessions = vec![TmuxSession {
        id: "$1".to_string(),
        name: "one".to_string(),
        windows: None,
        attached: false,
    }];
    let pane = RecentPane {
        session_id: "$1".to_string(),
        pane_id: "%1".to_string(),
        title: "logs".to_string(),
        observed_at: Timestamp::from_secs(0),
    };
    let line = sidebar_item(&SidebarRow::Session { session_index: 0 }, &sessions);
    assert_eq!(line.spans.len(), 1);
    assert_eq!(line.spans[0].content, "one");
    let line = sidebar_item(&SidebarRow::Pane { session_index: 0, pane }, &sessions);
    assert_eq!(line.spans[0].content, "  ");
    assert_eq!(line.spans[1].content, "logs");
    assert_eq!(line.spans[1].style.fg, Some(Color::Yellow));
    assert!(line.spans[1].style.bold);
    assert_eq!(sidebar_item(&SidebarRow::Spacer, &sessions).spans.len(), 0);
}
