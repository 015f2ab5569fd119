//! What holds of single mouse events: what they are reported as, and where they go.

use crate::input::{
    drain, lemma_drain_plain, lemma_drain_report, lemma_drain_wait, lemma_plain_run, next_input,
    plain_run, report_actions, route, ActionView, DrainView, InputStep, MouseRoutingResult,
    ScreenView,
};
use crate::layout::{rect_holds, sidebar_parts, Rect};
use crate::mouse::{
    body_end, event_in_pane, held_back, kind_of, law_forwarded_event_is_read_back, modifiers_of,
    mouse_prefix, mouse_token, pane_report, prefix_at, KeyModifiers, MouseButton, MouseEvent,
    MouseEventKind, MouseToken,
};
use crate::sidebar::{target_at, RowView, SidebarMouseTarget};
use crate::state::AppView;
use crate::text::{split_on, unsigned_of};
use vstd::prelude::*;

verus! {

/// Whether a cell lies within the columns and the rows of an area. The last column and the last
/// row that can be named belong to none.
pub open spec fn in_area(area: Rect, column: u16, row: u16) -> bool {
    &&& area.x <= column < area.x + area.width && column < 0xffff
    &&& area.y <= row < area.y + area.height && row < 0xffff
}

/// An area holds just the cells within its columns and rows.
pub proof fn law_area_holds_its_cells(area: Rect, column: u16, row: u16)
    ensures
        rect_holds(area, column, row) == in_area(area, column, row),
{
}

/// What in the sidebar a mouse event points at.
pub open spec fn pointed_at(screen: ScreenView, mouse: MouseEvent) -> Option<SidebarMouseTarget> {
    target_at(
        sidebar_parts(screen.sidebar_area).0,
        sidebar_parts(screen.sidebar_area).1,
        mouse.column,
        mouse.row,
        screen.rows,
        screen.list_offset,
    )
}

/// Whether an event is a left click on something in the sidebar.
pub open spec fn clicks_the_sidebar(screen: ScreenView, mouse: MouseEvent) -> bool {
    mouse.kind == MouseEventKind::Down(MouseButton::Left) && pointed_at(screen, mouse) is Some
}

/// What lies outside the sidebar points at nothing in it.
pub proof fn law_only_the_sidebar_is_clicked(screen: ScreenView, mouse: MouseEvent)
    requires
        !in_area(screen.sidebar_area, mouse.column, mouse.row),
    ensures
        pointed_at(screen, mouse) is None,
{
}

/// Whether the pane holds the mouse after an event that it was sent: from the press of a button,
/// whichever, to the next release.
pub open spec fn holds_after(kind: MouseEventKind, held: bool) -> bool {
    kind is Down || held && !(kind is Up)
}

/// Every mouse event in the tmux pane, of whatever kind, is sent to the client relative to the
/// pane, unless it is a left click on something in the sidebar. It changes nothing that is shown.
pub proof fn law_event_in_the_pane_is_sent(
    screen: ScreenView,
    mouse: MouseEvent,
    app: AppView,
    captured: bool,
)
    requires
        in_area(screen.pane_area, mouse.column, mouse.row) || captured,
        !clicks_the_sidebar(screen, mouse),
    ensures
        ({
            let routed = route(screen, mouse, app, captured);
            &&& routed.result == MouseRoutingResult::Handled
            &&& routed.send == Some(pane_report(mouse, screen.pane_area))
            &&& routed.captured == holds_after(mouse.kind, captured)
            &&& routed.app == app
            &&& !routed.restart_pane
        }),
{
    law_area_holds_its_cells(screen.pane_area, mouse.column, mouse.row);
}

/// An event outside the pane, which does not hold the mouse, is left alone unless it is a left
/// click on something in the sidebar.
pub proof fn law_event_elsewhere_is_left_alone(
    screen: ScreenView,
    mouse: MouseEvent,
    app: AppView,
)
    requires
        !in_area(screen.pane_area, mouse.column, mouse.row),
        !clicks_the_sidebar(screen, mouse),
    ensures
        ({
            let routed = route(screen, mouse, app, false);
            &&& routed.result == MouseRoutingResult::NotHandled
            &&& routed.send is None
            &&& !routed.captured
            &&& routed.app == app
            &&& !routed.restart_pane
        }),
{
    law_area_holds_its_cells(screen.pane_area, mouse.column, mouse.row);
}

/// A left click on the row of a session selects that session and no pane. Another tmux client
/// is wanted unless just that was selected already. Nothing is sent, and the pane does not hold
/// the mouse.
pub proof fn law_click_on_a_session_selects_it(
    screen: ScreenView,
    mouse: MouseEvent,
    app: AppView,
    captured: bool,
    at: usize,
    session_index: nat,
)
    requires
        mouse.kind == MouseEventKind::Down(MouseButton::Left),
        pointed_at(screen, mouse) == Some(SidebarMouseTarget::Row(at)),
        screen.rows[at as int] == (RowView::Session { session_index }),
        session_index < app.sessions.len(),
    ensures
        ({
            let routed = route(screen, mouse, app, captured);
            &&& routed.result == MouseRoutingResult::Handled
            &&& routed.send is None
            &&& !routed.captured
            &&& routed.app.selected == session_index
            &&& routed.app.selected_pane is None
            &&& routed.app.sessions == app.sessions
            &&& routed.app.recent == app.recent
            &&& routed.restart_pane == !(app.selected == session_index && app.selected_pane is None)
        }),
{
}

/// A left click on the row of a pane selects that pane and its session. Another tmux client is
/// wanted unless just that was selected already. Nothing is sent, and the pane does not hold the
/// mouse.
pub proof fn law_click_on_a_pane_selects_it(
    screen: ScreenView,
    mouse: MouseEvent,
    app: AppView,
    captured: bool,
    at: usize,
)
    requires
        mouse.kind == MouseEventKind::Down(MouseButton::Left),
        pointed_at(screen, mouse) == Some(SidebarMouseTarget::Row(at)),
        screen.rows[at as int] is Pane,
        screen.rows[at as int]->Pane_session_index < app.sessions.len(),
    ensures
        ({
            let routed = route(screen, mouse, app, captured);
            let session_index = screen.rows[at as int]->Pane_session_index;
            let pane_id = screen.rows[at as int]->pane.pane_id;
            &&& routed.result == MouseRoutingResult::Handled
            &&& routed.send is None
            &&& !routed.captured
            &&& routed.app.selected == session_index
            &&& routed.app.selected_pane == Some(pane_id)
            &&& routed.app.sessions == app.sessions
            &&& routed.app.recent == app.recent
            &&& routed.restart_pane == !(app.selected == session_index && app.selected_pane == Some(
                pane_id,
            ))
        }),
{
}

/// A left click on the exit button exits, and gives the mouse back.
pub proof fn law_click_on_the_exit_button_exits(
    screen: ScreenView,
    mouse: MouseEvent,
    app: AppView,
    captured: bool,
)
    requires
        mouse.kind == MouseEventKind::Down(MouseButton::Left),
        pointed_at(screen, mouse) == Some(SidebarMouseTarget::Exit),
    ensures
        ({
            let routed = route(screen, mouse, app, captured);
            &&& routed.result == MouseRoutingResult::Exit
            &&& routed.send is None
            &&& !routed.captured
            &&& routed.app == app
            &&& !routed.restart_pane
        }),
{
}

proof fn lemma_nothing_before(drained: DrainView)
    ensures
        drained.after(Seq::empty()) == drained,
{
    assert(Seq::<ActionView>::empty() + drained.actions =~= drained.actions);
}

proof fn lemma_report_first(
    screen: ScreenView,
    pending: Seq<u8>,
    app: AppView,
    captured: bool,
    event: MouseEvent,
    len: nat,
)
    requires
        mouse_token(pending) == MouseToken::Report(event, len),
    ensures
        ({
            let routed = route(screen, event, app, captured);
            let actions = report_actions(routed, pending.take(len as int));
            drain(screen, pending, app, captured) == if routed.result == MouseRoutingResult::Exit {
                DrainView {
                    pending: pending.skip(len as int),
                    app: routed.app,
                    captured: routed.captured,
                    actions,
                    exit: true,
                }
            } else {
                drain(screen, pending.skip(len as int), routed.app, routed.captured).after(actions)
            }
        }),
{
    let routed = route(screen, event, app, captured);
    let actions = report_actions(routed, pending.take(len as int));
    lemma_drain_report(screen, pending, app, captured, event, len, Seq::empty());
    lemma_nothing_before(drain(screen, pending, app, captured));
    assert(Seq::<ActionView>::empty() + actions =~= actions);
}

/// The report of an event in the pane reaches the tmux client at its place among the input: it
/// is taken out, and one report relative to the pane is sent instead.
pub proof fn law_report_in_the_pane_is_forwarded(
    screen: ScreenView,
    pending: Seq<u8>,
    app: AppView,
    captured: bool,
    event: MouseEvent,
    len: nat,
)
    requires
        mouse_token(pending) == MouseToken::Report(event, len),
        in_area(screen.pane_area, event.column, event.row) || captured,
        !clicks_the_sidebar(screen, event),
    ensures
        drain(screen, pending, app, captured) == drain(
            screen,
            pending.skip(len as int),
            app,
            holds_after(event.kind, captured),
        ).after(seq![ActionView::Send(pane_report(event, screen.pane_area))]),
{
    law_event_in_the_pane_is_sent(screen, event, app, captured);
    lemma_report_first(screen, pending, app, captured, event, len);
}

/// A click that changes the selection gives the tmux client up, one that does not does nothing;
/// what comes after it is dealt with as the new selection has it.
pub proof fn law_click_on_a_row_is_dealt_with_first(
    screen: ScreenView,
    pending: Seq<u8>,
    app: AppView,
    captured: bool,
    event: MouseEvent,
    len: nat,
)
    requires
        mouse_token(pending) == MouseToken::Report(event, len),
        clicks_the_sidebar(screen, event),
        pointed_at(screen, event)->0 is Row,
    ensures
        ({
            let routed = route(screen, event, app, captured);
            drain(screen, pending, app, captured) == drain(
                screen,
                pending.skip(len as int),
                routed.app,
                false,
            ).after(
                if routed.restart_pane {
                    seq![ActionView::RestartPane]
                } else {
                    Seq::empty()
                },
            )
        }),
{
    lemma_report_first(screen, pending, app, captured, event, len);
}

/// A click on the exit button ends the handling of input at once; nothing after it is looked at.
pub proof fn law_exit_ends_the_handling_of_input(
    screen: ScreenView,
    pending: Seq<u8>,
    app: AppView,
    captured: bool,
    event: MouseEvent,
    len: nat,
)
    requires
        mouse_token(pending) == MouseToken::Report(event, len),
        event.kind == MouseEventKind::Down(MouseButton::Left),
        pointed_at(screen, event) == Some(SidebarMouseTarget::Exit),
    ensures
        drain(screen, pending, app, captured) == (DrainView {
            pending: pending.skip(len as int),
            app,
            captured: false,
            actions: Seq::empty(),
            exit: true,
        }),
{
    lemma_report_first(screen, pending, app, captured, event, len);
}

/// A mouse report that has not come in whole waits, and nothing is done.
pub proof fn law_partial_report_waits(
    screen: ScreenView,
    pending: Seq<u8>,
    app: AppView,
    captured: bool,
)
    requires
        mouse_token(pending) is Partial,
    ensures
        drain(screen, pending, app, captured) == (DrainView {
            pending,
            app,
            captured,
            actions: Seq::empty(),
            exit: false,
        }),
{
    lemma_drain_wait(screen, pending, app, captured, Seq::empty());
    lemma_nothing_before(drain(screen, pending, app, captured));
}

/// What begins like a mouse report and is none is not lost: its first byte is sent, and the rest
/// is looked at anew.
pub proof fn law_false_report_is_sent(
    screen: ScreenView,
    pending: Seq<u8>,
    app: AppView,
    captured: bool,
)
    requires
        mouse_prefix().is_prefix_of(pending),
        mouse_token(pending) is NoReport,
    ensures
        drain(screen, pending, app, captured) == drain(
            screen,
            pending.skip(1),
            app,
            captured,
        ).after(seq![ActionView::Send(seq![pending[0]])]),
{
    lemma_drain_plain(screen, pending, app, captured, 1, Seq::empty());
    lemma_nothing_before(drain(screen, pending, app, captured));
    assert(pending.take(1) =~= seq![pending[0]]);
    assert(Seq::<ActionView>::empty().push(ActionView::Send(pending.take(1))) =~= seq![
        ActionView::Send(seq![pending[0]]),
    ]);
}

/// What comes before the first beginning of a mouse report is sent as it is, before anything
/// else is done.
pub proof fn law_text_before_a_report_is_sent_first(
    screen: ScreenView,
    pending: Seq<u8>,
    app: AppView,
    captured: bool,
    at: int,
)
    requires
        at > 0,
        prefix_at(pending, at),
        forall|earlier: int| earlier < at ==> !#[trigger] prefix_at(pending, earlier),
    ensures
        drain(screen, pending, app, captured) == drain(
            screen,
            pending.skip(at),
            app,
            captured,
        ).after(seq![ActionView::Send(pending.take(at))]),
{
    lemma_plain_run(pending);
    assert(prefix_at(pending, plain_run(pending)));
    assert(plain_run(pending) == at);
    assert(!prefix_at(pending, 0));
    if mouse_prefix().is_prefix_of(pending) {
        assert(pending.subrange(0, 3) =~= mouse_prefix());
    }
    assert(next_input(pending) == InputStep::Plain(at as nat));
    lemma_drain_plain(screen, pending, app, captured, at as nat, Seq::empty());
    lemma_nothing_before(drain(screen, pending, app, captured));
    assert(Seq::<ActionView>::empty().push(ActionView::Send(pending.take(at))) =~= seq![
        ActionView::Send(pending.take(at)),
    ]);
}

/// What a code stands for, by the numbers of the xterm protocol, whatever modifier keys are
/// held.
pub proof fn law_codes_stand_for_kinds(modifiers: KeyModifiers, release: bool)
    ensures
        ({
            let held = (if modifiers.shift {
                4nat
            } else {
                0
            }) + (if modifiers.alt {
                8nat
            } else {
                0
            }) + (if modifiers.control {
                16nat
            } else {
                0
            });
            &&& kind_of(held, false) == Some(MouseEventKind::Down(MouseButton::Left))
            &&& kind_of(held + 1, false) == Some(MouseEventKind::Down(MouseButton::Middle))
            &&& kind_of(held + 2, false) == Some(MouseEventKind::Down(MouseButton::Right))
            &&& kind_of(held + 3, false) is None
            &&& kind_of(held, true) == Some(MouseEventKind::Up(MouseButton::Left))
            &&& kind_of(held + 1, true) == Some(MouseEventKind::Up(MouseButton::Middle))
            &&& kind_of(held + 2, true) == Some(MouseEventKind::Up(MouseButton::Right))
            &&& kind_of(held + 3, true) == Some(MouseEventKind::Up(MouseButton::Left))
            &&& kind_of(held + 32, false) == Some(MouseEventKind::Drag(MouseButton::Left))
            &&& kind_of(held + 33, false) == Some(MouseEventKind::Drag(MouseButton::Middle))
            &&& kind_of(held + 34, false) == Some(MouseEventKind::Drag(MouseButton::Right))
            &&& kind_of(held + 35, false) == Some(MouseEventKind::Moved)
            &&& kind_of(held + 64, release) == Some(MouseEventKind::ScrollUp)
            &&& kind_of(held + 65, release) == Some(MouseEventKind::ScrollDown)
            &&& kind_of(held + 66, release) == Some(MouseEventKind::ScrollLeft)
            &&& kind_of(held + 67, release) == Some(MouseEventKind::ScrollRight)
            &&& modifiers_of(held) == modifiers
            &&& modifiers_of(held + 1) == modifiers
            &&& modifiers_of(held + 2) == modifiers
            &&& modifiers_of(held + 3) == modifiers
            &&& modifiers_of(held + 32) == modifiers
            &&& modifiers_of(held + 33) == modifiers
            &&& modifiers_of(held + 34) == modifiers
            &&& modifiers_of(held + 35) == modifiers
            &&& modifiers_of(held + 64) == modifiers
            &&& modifiers_of(held + 65) == modifiers
            &&& modifiers_of(held + 66) == modifiers
            &&& modifiers_of(held + 67) == modifiers
        }),
{
}

/// What is taken for a mouse report is one: `ESC [ <`, a code, a column and a row with
/// semicolons between, and an `M`, or an `m` for a release. The event is the one that these name,
/// with the column and the row counted from zero.
pub proof fn law_report_names_its_event(bytes: Seq<u8>, event: MouseEvent, len: nat)
    requires
        mouse_token(bytes) == MouseToken::Report(event, len),
    ensures
        4 <= len <= bytes.len(),
        bytes[0] == 0x1b && bytes[1] == 0x5b && bytes[2] == 0x3c,
        bytes[len - 1] == 0x4d || bytes[len - 1] == 0x6d,
        forall|i: int|
            3 <= i < len - 1 ==> 0x30 <= #[trigger] bytes[i] <= 0x39 || bytes[i] == 0x3b,
        ({
            let body = Seq::new((len - 4) as nat, |i: int| bytes[i + 3] as char);
            let parts = split_on(body, ';');
            &&& parts.len() == 3
            &&& unsigned_of(parts[0], 0xffff) is Some
            &&& unsigned_of(parts[1], 0xffff) == Some((event.column + 1) as nat)
            &&& unsigned_of(parts[2], 0xffff) == Some((event.row + 1) as nat)
            &&& kind_of(unsigned_of(parts[0], 0xffff)->0, bytes[len - 1] == 0x6d) == Some(
                event.kind,
            )
            &&& modifiers_of(unsigned_of(parts[0], 0xffff)->0) == event.modifiers
        }),
{
    let end = body_end(bytes, 3);
    lemma_body_bytes(bytes, 3);
    assert(mouse_prefix() == bytes.subrange(0, 3));
    assert(bytes.subrange(0, 3)[0] == 0x1b && bytes.subrange(0, 3)[1] == 0x5b && bytes.subrange(
        0,
        3,
    )[2] == 0x3c);
    assert(end == len - 1);
    let body = Seq::new((len - 4) as nat, |i: int| bytes[i + 3] as char);
    assert(crate::mouse::ascii_text(bytes.subrange(3, end)) =~= body);
}

proof fn lemma_body_bytes(bytes: Seq<u8>, from: int)
    requires
        0 <= from <= bytes.len(),
    ensures
        from <= body_end(bytes, from) <= bytes.len(),
        forall|i: int|
            from <= i < body_end(bytes, from) ==> 0x30 <= #[trigger] bytes[i] <= 0x39 || bytes[i]
                == 0x3b,
    decreases bytes.len() - from,
{
    if from < bytes.len() && crate::mouse::is_body_byte(bytes[from]) {
        lemma_body_bytes(bytes, from + 1);
    }
}

/// The program in a pane is told of an event in it at the place where it is, counted from the
/// corner of the pane; of one outside, at the nearest place in the pane. Kind and modifiers are
/// its own, but for the button of a release, which is not told.
pub proof fn law_forwarded_event_is_told_relative_to_the_pane(event: MouseEvent, pane: Rect)
    requires
        pane.width > 0,
        pane.height > 0,
    ensures
        mouse_token(pane_report(event, pane)) matches MouseToken::Report(told, len) && {
            &&& len == pane_report(event, pane).len()
            &&& told.modifiers == event.modifiers
            &&& if event.kind is Up {
                told.kind is Up
            } else {
                told.kind == event.kind
            }
            &&& told.column < pane.width && told.row < pane.height
            &&& pane.x <= event.column < pane.x + pane.width ==> told.column == event.column
                - pane.x
            &&& event.column < pane.x ==> told.column == 0
            &&& event.column >= pane.x + pane.width ==> told.column == pane.width - 1
            &&& pane.y <= event.row < pane.y + pane.height ==> told.row == event.row - pane.y
            &&& event.row < pane.y ==> told.row == 0
            &&& event.row >= pane.y + pane.height ==> told.row == pane.height - 1
        },
{
    law_forwarded_event_is_read_back(event, pane);
    let told = event_in_pane(event, pane);
}

proof fn lemma_body_runs_to(bytes: Seq<u8>, from: int, end: int)
    requires
        0 <= from <= end <= bytes.len(),
        forall|i: int|
            from <= i < end ==> 0x30 <= #[trigger] bytes[i] <= 0x39 || bytes[i] == 0x3b,
        end < bytes.len() ==> !(0x30 <= bytes[end] <= 0x39 || bytes[end] == 0x3b),
    ensures
        body_end(bytes, from) == end,
    decreases end - from,
{
    if from < end {
        assert(0x30 <= bytes[from] <= 0x39 || bytes[from] == 0x3b);
        lemma_body_runs_to(bytes, from + 1, end);
    }
}

proof fn lemma_prefix(bytes: Seq<u8>)
    requires
        bytes.len() >= 3,
        bytes[0] == 0x1b && bytes[1] == 0x5b && bytes[2] == 0x3c,
    ensures
        mouse_prefix().is_prefix_of(bytes),
{
    assert(bytes.subrange(0, 3) =~= mouse_prefix());
}

/// As long as only digits and semicolons have come in after `ESC [ <`, however many, a report may
/// still follow.
pub proof fn law_beginning_of_a_report_is_partial(bytes: Seq<u8>)
    requires
        bytes.len() >= 3,
        bytes[0] == 0x1b && bytes[1] == 0x5b && bytes[2] == 0x3c,
        forall|i: int|
            3 <= i < bytes.len() ==> 0x30 <= #[trigger] bytes[i] <= 0x39 || bytes[i] == 0x3b,
    ensures
        mouse_token(bytes) is Partial,
{
    lemma_prefix(bytes);
    lemma_body_runs_to(bytes, 3, bytes.len() as int);
}

/// After `ESC [ <`, digits and semicolons, any byte but `M` and `m` shows that it is no report.
pub proof fn law_other_byte_ends_the_beginning_of_a_report(bytes: Seq<u8>, end: int)
    requires
        3 <= end < bytes.len(),
        bytes[0] == 0x1b && bytes[1] == 0x5b && bytes[2] == 0x3c,
        forall|i: int| 3 <= i < end ==> 0x30 <= #[trigger] bytes[i] <= 0x39 || bytes[i] == 0x3b,
        !(0x30 <= bytes[end] <= 0x39 || bytes[end] == 0x3b),
        bytes[end] != 0x4d && bytes[end] != 0x6d,
    ensures
        mouse_token(bytes) is NoReport,
{
    lemma_prefix(bytes);
    lemma_body_runs_to(bytes, 3, end);
}

/// Every report is read, whatever follows it: one with a code that stands for a kind, and with a
/// column and a row from one on.
pub proof fn law_every_report_is_read(
    bytes: Seq<u8>,
    end: int,
    code: nat,
    column: u16,
    row: u16,
    kind: MouseEventKind,
)
    requires
        3 <= end < bytes.len(),
        bytes[0] == 0x1b && bytes[1] == 0x5b && bytes[2] == 0x3c,
        forall|i: int| 3 <= i < end ==> 0x30 <= #[trigger] bytes[i] <= 0x39 || bytes[i] == 0x3b,
        bytes[end] == 0x4d || bytes[end] == 0x6d,
        ({
            let parts = split_on(Seq::new((end - 3) as nat, |i: int| bytes[i + 3] as char), ';');
            &&& parts.len() == 3
            &&& unsigned_of(parts[0], 0xffff) == Some(code)
            &&& unsigned_of(parts[1], 0xffff) == Some((column + 1) as nat)
            &&& unsigned_of(parts[2], 0xffff) == Some((row + 1) as nat)
        }),
        kind_of(code, bytes[end] == 0x6d) == Some(kind),
    ensures
        mouse_token(bytes) == MouseToken::Report(
            MouseEvent { kind, column, row, modifiers: modifiers_of(code) },
            (end + 1) as nat,
        ),
{
    lemma_prefix(bytes);
    lemma_body_runs_to(bytes, 3, end);
    let body = Seq::new((end - 3) as nat, |i: int| bytes[i + 3] as char);
    assert(crate::mouse::ascii_text(bytes.subrange(3, end)) =~= body);
}

/// Of input without a report, only an `ESC [` at its end, or that and a `<`, waits for more. A
/// lone escape does not.
pub proof fn law_only_the_beginning_of_a_report_waits(bytes: Seq<u8>)
    ensures
        ({
            let n = bytes.len() as int;
            held_back(bytes) == if n >= 3 && bytes[n - 3] == 0x1b && bytes[n - 2] == 0x5b
                && bytes[n - 1] == 0x3c {
                3int
            } else if n >= 2 && bytes[n - 2] == 0x1b && bytes[n - 1] == 0x5b {
                2
            } else {
                0
            }
        }),
{
    let n = bytes.len() as int;
    let whole = mouse_prefix();
    let short = whole.take(2);
    assert(short =~= seq![0x1bu8, 0x5b]);
    if n >= 3 {
        let tail = bytes.subrange(n - 3, n);
        assert(tail[0] == bytes[n - 3] && tail[1] == bytes[n - 2] && tail[2] == bytes[n - 1]);
        if bytes[n - 3] == 0x1b && bytes[n - 2] == 0x5b && bytes[n - 1] == 0x3c {
            assert(tail =~= whole);
        } else if tail == whole {
            assert(tail[0] == whole[0] && tail[1] == whole[1] && tail[2] == whole[2]);
        }
    }
    if n >= 2 {
        let tail = bytes.subrange(n - 2, n);
        assert(tail[0] == bytes[n - 2] && tail[1] == bytes[n - 1]);
        if bytes[n - 2] == 0x1b && bytes[n - 1] == 0x5b {
            assert(tail =~= short);
        } else if tail == short {
            assert(tail[0] == short[0] && tail[1] == short[1]);
        }
    }
}

} // verus!
