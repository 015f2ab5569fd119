//! What holds of the handling of input as a whole.

use crate::input::{
    drain, lemma_drain_plain, lemma_drain_report, lemma_drain_wait, lemma_plain_run,
    lemma_step_advances, next_input, plain_run, report_actions, route, ActionView, DrainView,
    InputStep, MouseRoutingResult, RouteView, ScreenView,
};
use crate::layout::{rect_holds, sidebar_parts};
use crate::mouse::{
    body_end, held_back, is_body_byte, mouse_prefix, mouse_token, pane_report, prefix_at,
    MouseButton, MouseEvent, MouseEventKind, MouseToken,
};
use crate::state::AppView;
use vstd::prelude::*;

verus! {

/// What the tmux client gets to see: single bytes, and the end of one client and the beginning
/// of another.
pub enum Wire {
    Byte(u8),
    Restart,
}

pub open spec fn wire_bytes(bytes: Seq<u8>) -> Seq<Wire> {
    bytes.map_values(|b: u8| Wire::Byte(b))
}

/// What the tmux client gets to see of some actions. How bytes are spread over writes does not
/// count.
pub open spec fn wire(actions: Seq<ActionView>) -> Seq<Wire>
    decreases actions.len(),
{
    if actions.len() == 0 {
        Seq::empty()
    } else {
        wire(actions.drop_last()) + match actions.last() {
            ActionView::Send(bytes) => wire_bytes(bytes),
            ActionView::RestartPane => seq![Wire::Restart],
        }
    }
}

proof fn lemma_wire_append(a: Seq<ActionView>, b: Seq<ActionView>)
    ensures
        wire(a + b) == wire(a) + wire(b),
    decreases b.len(),
{
    if b.len() == 0 {
        assert(a + b =~= a);
        assert(wire(a) + wire(b) =~= wire(a));
    } else {
        lemma_wire_append(a, b.drop_last());
        assert((a + b).drop_last() =~= a + b.drop_last());
        assert((a + b).last() == b.last());
        assert(wire(a + b) =~= wire(a) + wire(b));
    }
}

proof fn lemma_wire_send(bytes: Seq<u8>)
    ensures
        wire(seq![ActionView::Send(bytes)]) == wire_bytes(bytes),
{
    let actions = seq![ActionView::Send(bytes)];
    assert(actions.drop_last() =~= Seq::empty());
    assert(wire(actions.drop_last()) =~= Seq::empty());
    assert(wire(actions) =~= wire_bytes(bytes));
}

proof fn lemma_prefix_at(s: Seq<u8>, at: int)
    ensures
        prefix_at(s, at) == (0 <= at <= s.len() - 3 && s[at] == 0x1b && s[at + 1] == 0x5b && s[at
            + 2] == 0x3c),
{
    if 0 <= at <= s.len() - 3 {
        let window = s.subrange(at, at + 3);
        assert(window[0] == s[at] && window[1] == s[at + 1] && window[2] == s[at + 2]);
        if s[at] == 0x1b && s[at + 1] == 0x5b && s[at + 2] == 0x3c {
            assert(window =~= mouse_prefix());
        } else if window == mouse_prefix() {
            assert(window[0] == mouse_prefix()[0] && window[1] == mouse_prefix()[1] && window[2]
                == mouse_prefix()[2]);
        }
    }
}

proof fn lemma_held_back(s: Seq<u8>)
    ensures
        held_back(s) == if s.len() >= 3 && prefix_at(s, s.len() - 3) {
            3nat
        } else if s.len() >= 2 && s[s.len() - 2] == 0x1b && s[s.len() - 1] == 0x5b {
            2
        } else {
            0
        },
        held_back(s) <= s.len(),
{
    let short = mouse_prefix().take(2);
    assert(short =~= seq![0x1bu8, 0x5b]);
    if s.len() >= 2 {
        let tail = s.subrange(s.len() - 2, s.len() as int);
        assert(tail[0] == s[s.len() - 2] && tail[1] == s[s.len() - 1]);
        if s[s.len() - 2] == 0x1b && s[s.len() - 1] == 0x5b {
            assert(tail =~= short);
        } else if tail == short {
            assert(tail[0] == short[0] && tail[1] == short[1]);
        }
    }
}

proof fn lemma_starts(s: Seq<u8>)
    ensures
        mouse_prefix().is_prefix_of(s) == prefix_at(s, 0),
{
    if s.len() >= 3 {
        assert(s.subrange(0, 3) =~= s.take(3));
    }
}

/// Input without the prefix of a mouse report goes to the tmux client byte for byte; only an
/// `ESC [` at its end waits for more. Nothing else changes.
pub proof fn law_plain_input_passes_through(
    screen: ScreenView,
    pending: Seq<u8>,
    app: AppView,
    captured: bool,
)
    requires
        forall|at: int| !#[trigger] prefix_at(pending, at),
    ensures
        ({
            let len = pending.len() - held_back(pending);
            drain(screen, pending, app, captured) == DrainView {
                pending: pending.skip(len),
                app,
                captured,
                actions: if len > 0 {
                    seq![ActionView::Send(pending.take(len))]
                } else {
                    Seq::empty()
                },
                exit: false,
            }
        }),
        held_back(pending) == 2 || held_back(pending) == 0,
{
    lemma_held_back(pending);
    lemma_starts(pending);
    let len = pending.len() - held_back(pending);
    let rest = pending.skip(len);
    assert(plain_run(pending) == len);
    assert forall|at: int| !#[trigger] prefix_at(rest, at) by {
        lemma_prefix_at(rest, at);
        lemma_prefix_at(pending, len + at);
        assert(!prefix_at(pending, len + at));
    }
    lemma_held_back(rest);
    lemma_starts(rest);
    assert(plain_run(rest) == 0);
    lemma_wait_step(screen, rest, app, captured);
    if len > 0 {
        lemma_plain_step(screen, pending, app, captured, len as nat);
        assert(seq![ActionView::Send(pending.take(len))] + Seq::<ActionView>::empty() =~= seq![
            ActionView::Send(pending.take(len)),
        ]);
    } else {
        assert(rest =~= pending);
    }
}

proof fn lemma_body_end_extends(p: Seq<u8>, q: Seq<u8>, from: int)
    requires
        0 <= from,
        body_end(p, from) < p.len(),
    ensures
        body_end(p + q, from) == body_end(p, from),
    decreases p.len() - from,
{
    if from < p.len() {
        assert((p + q)[from] == p[from]);
        if is_body_byte(p[from]) {
            lemma_body_end_extends(p, q, from + 1);
        }
    }
}

proof fn lemma_body_end_at_least(bytes: Seq<u8>, from: int)
    ensures
        body_end(bytes, from) >= from,
    decreases bytes.len() - from,
{
    if 0 <= from < bytes.len() && is_body_byte(bytes[from]) {
        lemma_body_end_at_least(bytes, from + 1);
    }
}

/// What is settled by the first bytes stays so when more follow.
proof fn lemma_token_extends(p: Seq<u8>, q: Seq<u8>)
    requires
        mouse_prefix().is_prefix_of(p),
        !(mouse_token(p) is Partial),
    ensures
        mouse_prefix().is_prefix_of(p + q),
        mouse_token(p + q) == mouse_token(p),
{
    lemma_starts(p);
    lemma_starts(p + q);
    lemma_prefix_at(p, 0);
    lemma_prefix_at(p + q, 0);
    let end = body_end(p, 3);
    lemma_body_end_extends(p, q, 3);
    lemma_body_end_at_least(p, 3);
    assert((p + q)[end] == p[end]);
    assert((p + q).subrange(3, end) =~= p.subrange(3, end));
}

proof fn lemma_plain_run_shifts(s: Seq<u8>, n: int)
    requires
        0 <= n <= s.len(),
        forall|at: int| at < n ==> !#[trigger] prefix_at(s, at),
        (forall|at: int| !#[trigger] prefix_at(s, at)) ==> held_back(s) == held_back(s.skip(n)),
    ensures
        plain_run(s) == n + plain_run(s.skip(n)),
{
    let t = s.skip(n);
    assert forall|at: int| at >= 0 implies #[trigger] prefix_at(t, at) == prefix_at(s, n + at) by {
        lemma_prefix_at(t, at);
        lemma_prefix_at(s, n + at);
    }
    lemma_plain_run(s);
    lemma_plain_run(t);
    if exists|at: int| #[trigger] prefix_at(s, at) {
        let first = plain_run(s);
        assert(prefix_at(s, first));
        assert(prefix_at(t, first - n));
        assert(prefix_at(t, plain_run(t)));
        assert(prefix_at(s, n + plain_run(t)));
    } else {
        assert forall|at: int| !#[trigger] prefix_at(t, at) by {
            if prefix_at(t, at) {
                assert(prefix_at(s, n + at));
            }
        }
    }
}

proof fn lemma_wire_bytes_append(a: Seq<u8>, b: Seq<u8>)
    ensures
        wire_bytes(a + b) == wire_bytes(a) + wire_bytes(b),
{
    assert(wire_bytes(a + b) =~= wire_bytes(a) + wire_bytes(b));
}

/// Bytes that follow input without a prefix add no prefix within what is sent on of it.
proof fn lemma_no_prefix_within(p: Seq<u8>, q: Seq<u8>, n: int)
    requires
        forall|at: int| !#[trigger] prefix_at(p, at),
        p.len() > 0 ==> p.last() != 0x1b,
        n == p.len() - held_back(p),
    ensures
        0 <= n <= p.len(),
        forall|at: int| at < n ==> !#[trigger] prefix_at(p + q, at),
{
    lemma_held_back(p);
    assert forall|at: int| at < n implies !#[trigger] prefix_at(p + q, at) by {
        lemma_prefix_at(p + q, at);
        lemma_prefix_at(p, at);
        assert(!prefix_at(p, at));
    }
}

/// Without a prefix anywhere, bytes that follow are held back as if they stood alone.
proof fn lemma_held_back_shifts(p: Seq<u8>, q: Seq<u8>, n: int)
    requires
        n == p.len() - held_back(p),
        0 <= n <= p.len(),
        p.len() > 0 ==> p.last() != 0x1b,
        !prefix_at(p + q, (p + q).len() - 3),
    ensures
        held_back(p + q) == held_back(p.skip(n) + q),
{
    let s = p + q;
    let t = p.skip(n) + q;
    lemma_held_back(p);
    lemma_held_back(s);
    lemma_held_back(t);
    lemma_prefix_at(t, t.len() - 3);
    lemma_prefix_at(s, s.len() - 3);
}

/// Bytes that follow input without a prefix do not change what is sent on of it.
proof fn lemma_plain_then_more_run(p: Seq<u8>, q: Seq<u8>, n: int)
    requires
        forall|at: int| !#[trigger] prefix_at(p, at),
        p.len() > 0 ==> p.last() != 0x1b,
        n == p.len() - held_back(p),
    ensures
        0 <= n <= p.len(),
        (p + q).skip(n) == p.skip(n) + q,
        plain_run(p + q) == n + plain_run(p.skip(n) + q),
        n > 0 ==> !prefix_at(p + q, 0),
{
    lemma_no_prefix_within(p, q, n);
    assert((p + q).skip(n) =~= p.skip(n) + q);
    if forall|at: int| !#[trigger] prefix_at(p + q, at) {
        assert(!prefix_at(p + q, (p + q).len() - 3));
        lemma_held_back_shifts(p, q, n);
    }
    lemma_plain_run_shifts(p + q, n);
}

proof fn lemma_next_is_plain(s: Seq<u8>)
    requires
        !prefix_at(s, 0) || plain_run(s) > 0,
    ensures
        0 <= plain_run(s) <= s.len(),
        plain_run(s) > 0 ==> next_input(s) == InputStep::Plain(plain_run(s) as nat),
{
    lemma_starts(s);
    lemma_plain_run(s);
}

proof fn lemma_after_nothing(drained: DrainView)
    ensures
        drained.after(Seq::empty()) == drained,
{
    assert(drained.after(Seq::empty()).actions =~= drained.actions);
}

proof fn lemma_plain_step(screen: ScreenView, s: Seq<u8>, app: AppView, captured: bool, n: nat)
    requires
        next_input(s) == InputStep::Plain(n),
    ensures
        ({
            let now = drain(screen, s, app, captured);
            let rest = drain(screen, s.skip(n as int), app, captured);
            &&& now == rest.after(seq![ActionView::Send(s.take(n as int))])
            &&& wire(now.actions) == wire_bytes(s.take(n as int)) + wire(rest.actions)
        }),
{
    let now = drain(screen, s, app, captured);
    let rest = drain(screen, s.skip(n as int), app, captured);
    let send = ActionView::Send(s.take(n as int));
    lemma_drain_plain(screen, s, app, captured, n, Seq::empty());
    lemma_after_nothing(now);
    assert(Seq::empty().push(send) =~= seq![send]);
    lemma_wire_send(s.take(n as int));
    lemma_wire_append(seq![send], rest.actions);
}

proof fn lemma_wait_step(screen: ScreenView, s: Seq<u8>, app: AppView, captured: bool)
    requires
        next_input(s) is Wait,
    ensures
        drain(screen, s, app, captured) == (DrainView {
            pending: s,
            app,
            captured,
            actions: Seq::empty(),
            exit: false,
        }),
{
    lemma_drain_wait(screen, s, app, captured, Seq::empty());
    lemma_after_nothing(drain(screen, s, app, captured));
}

proof fn lemma_report_step(
    screen: ScreenView,
    s: Seq<u8>,
    app: AppView,
    captured: bool,
    event: MouseEvent,
    n: nat,
    routed: RouteView,
)
    requires
        next_input(s) == InputStep::Report(event, n),
        routed == route(screen, event, app, captured),
    ensures
        ({
            let now = drain(screen, s, app, captured);
            let rest = drain(screen, s.skip(n as int), routed.app, routed.captured);
            let actions = report_actions(routed, s.take(n as int));
            if routed.result == MouseRoutingResult::Exit {
                &&& now.exit
                &&& now.actions == actions
                &&& now.pending == s.skip(n as int)
                &&& now.app == routed.app
                &&& now.captured == routed.captured
            } else {
                &&& now == rest.after(actions)
                &&& wire(now.actions) == wire(actions) + wire(rest.actions)
            }
        }),
{
    let now = drain(screen, s, app, captured);
    let rest = drain(screen, s.skip(n as int), routed.app, routed.captured);
    let actions = report_actions(routed, s.take(n as int));
    lemma_drain_report(screen, s, app, captured, event, n, Seq::empty());
    lemma_after_nothing(now);
    assert(Seq::empty() + actions =~= actions);
    lemma_wire_append(actions, rest.actions);
}

/// Whether a first and then a second piece of input lead to the same as the whole.
pub open spec fn pieces_agree(first: DrainView, second: DrainView, whole: DrainView) -> bool {
    &&& whole.pending == second.pending
    &&& whole.app == second.app
    &&& whole.captured == second.captured
    &&& whole.exit == second.exit
    &&& wire(whole.actions) == wire(first.actions) + wire(second.actions)
}

proof fn lemma_joins_associate(a: Seq<Wire>, b: Seq<Wire>, c: Seq<Wire>)
    ensures
        (a + b) + c == a + (b + c),
{
    assert((a + b) + c =~= a + (b + c));
}

proof fn lemma_split_seq(s: Seq<u8>, n: int, k: int)
    requires
        0 <= n,
        0 <= k,
        n + k <= s.len(),
    ensures
        s.skip(n).skip(k) == s.skip(n + k),
        s.take(n + k) == s.take(n) + s.skip(n).take(k),
        wire_bytes(s.take(n + k)) == wire_bytes(s.take(n)) + wire_bytes(s.skip(n).take(k)),
{
    assert(s.skip(n).skip(k) =~= s.skip(n + k));
    assert(s.take(n + k) =~= s.take(n) + s.skip(n).take(k));
    lemma_wire_bytes_append(s.take(n), s.skip(n).take(k));
}

/// Of a run of plain bytes, a first part may be sent on before the others.
proof fn lemma_plain_run_in_pieces(
    s: Seq<u8>,
    n: int,
    k: int,
    whole: DrainView,
    rest: DrainView,
    last: DrainView,
)
    requires
        0 <= n,
        0 <= k,
        n + k <= s.len(),
        wire(whole.actions) == wire_bytes(s.take(n + k)) + wire(last.actions),
        wire(rest.actions) == wire_bytes(s.skip(n).take(k)) + wire(last.actions),
    ensures
        wire(whole.actions) == wire_bytes(s.take(n)) + wire(rest.actions),
{
    lemma_split_seq(s, n, k);
    lemma_joins_associate(
        wire_bytes(s.take(n)),
        wire_bytes(s.skip(n).take(k)),
        wire(last.actions),
    );
}

proof fn lemma_wire_nothing(w: Seq<Wire>)
    ensures
        wire(Seq::empty()) + w == w,
{
    assert(wire(Seq::empty()) + w =~= w);
}

/// The case of [`law_input_may_arrive_in_pieces`] in which the first piece holds no prefix.
proof fn lemma_plain_then_more(
    screen: ScreenView,
    p: Seq<u8>,
    q: Seq<u8>,
    app: AppView,
    captured: bool,
    first: DrainView,
)
    requires
        forall|at: int| !#[trigger] prefix_at(p, at),
        p.len() > 0 ==> p.last() != 0x1b,
        first == drain(screen, p, app, captured),
    ensures
        pieces_agree(
            first,
            drain(screen, first.pending + q, first.app, first.captured),
            drain(screen, p + q, app, captured),
        ),
{
    law_plain_input_passes_through(screen, p, app, captured);
    let n = p.len() - held_back(p);
    let t = p.skip(n) + q;
    lemma_plain_then_more_run(p, q, n);
    if n == 0 {
        assert(p.skip(n) =~= p);
        lemma_wire_nothing(wire(drain(screen, t, app, captured).actions));
    } else {
        lemma_plain_run(t);
        let k = plain_run(t);
        lemma_next_is_plain(p + q);
        lemma_plain_step(screen, p + q, app, captured, (n + k) as nat);
        lemma_split_seq(p + q, n, k);
        if k > 0 {
            lemma_next_is_plain(t);
            lemma_plain_step(screen, t, app, captured, k as nat);
            lemma_plain_run_in_pieces(
                p + q,
                n,
                k,
                drain(screen, p + q, app, captured),
                drain(screen, t, app, captured),
                drain(screen, t.skip(k), app, captured),
            );
        }
        assert((p + q).take(n) =~= p.take(n));
        lemma_wire_send(p.take(n));
    }
}

/// What is settled of the next piece of input stays so when more bytes follow.
proof fn lemma_step_extends(p: Seq<u8>, q: Seq<u8>)
    requires
        exists|at: int| #[trigger] prefix_at(p, at),
        !(next_input(p) is Wait),
    ensures
        next_input(p + q) == next_input(p),
{
    lemma_starts(p);
    lemma_starts(p + q);
    if prefix_at(p, 0) {
        lemma_token_extends(p, q);
    } else {
        let n = plain_run(p);
        lemma_plain_run(p);
        lemma_plain_run(p + q);
        assert(prefix_at(p, n));
        lemma_prefix_at(p, n);
        assert forall|at: int| at <= n implies #[trigger] prefix_at(p + q, at) == prefix_at(
            p,
            at,
        ) by {
            lemma_prefix_at(p + q, at);
            lemma_prefix_at(p, at);
        }
        assert(prefix_at(p + q, n));
        assert(prefix_at(p + q, plain_run(p + q)));
        assert(plain_run(p + q) == n);
        assert(!prefix_at(p + q, 0));
    }
}

proof fn lemma_cut(p: Seq<u8>, q: Seq<u8>, n: int)
    requires
        0 <= n <= p.len(),
    ensures
        (p + q).skip(n) == p.skip(n) + q,
        (p + q).take(n) == p.take(n),
        n < p.len() ==> p.skip(n).last() == p.last(),
{
    assert((p + q).skip(n) =~= p.skip(n) + q);
    assert((p + q).take(n) =~= p.take(n));
}

/// It makes no difference whether input arrives at once or in two pieces: the tmux client sees
/// the same bytes, and the selection, the hold on the mouse and what is left pending are the
/// same. The first piece must not end in a lone `ESC`, which is sent on as a key press at once,
/// nor hold the click that exits.
pub proof fn law_input_may_arrive_in_pieces(
    screen: ScreenView,
    p: Seq<u8>,
    q: Seq<u8>,
    app: AppView,
    captured: bool,
)
    requires
        p.len() > 0 ==> p.last() != 0x1b,
        !drain(screen, p, app, captured).exit,
    ensures
        ({
            let first = drain(screen, p, app, captured);
            let second = drain(screen, first.pending + q, first.app, first.captured);
            pieces_agree(first, second, drain(screen, p + q, app, captured))
        }),
    decreases p.len(),
{
    let first = drain(screen, p, app, captured);
    let second = drain(screen, first.pending + q, first.app, first.captured);
    let whole = drain(screen, p + q, app, captured);
    lemma_step_advances(p);
    if forall|at: int| !#[trigger] prefix_at(p, at) {
        lemma_plain_then_more(screen, p, q, app, captured, first);
    } else if next_input(p) is Wait {
        lemma_wait_step(screen, p, app, captured);
        lemma_wire_nothing(wire(second.actions));
    } else {
        lemma_step_extends(p, q);
        match next_input(p) {
            InputStep::Wait => {},
            InputStep::Plain(n) => {
                lemma_cut(p, q, n as int);
                lemma_plain_step(screen, p, app, captured, n);
                lemma_plain_step(screen, p + q, app, captured, n);
                law_input_may_arrive_in_pieces(screen, p.skip(n as int), q, app, captured);
                lemma_joins_associate(
                    wire_bytes(p.take(n as int)),
                    wire(drain(screen, p.skip(n as int), app, captured).actions),
                    wire(second.actions),
                );
            },
            InputStep::Report(event, n) => {
                let rest = p.skip(n as int);
                lemma_cut(p, q, n as int);
                let routed = route(screen, event, app, captured);
                lemma_report_step(screen, p, app, captured, event, n, routed);
                lemma_report_step(screen, p + q, app, captured, event, n, routed);
                law_input_may_arrive_in_pieces(screen, rest, q, routed.app, routed.captured);
                lemma_joins_associate(
                    wire(report_actions(routed, p.take(n as int))),
                    wire(drain(screen, rest, routed.app, routed.captured).actions),
                    wire(second.actions),
                );
            },
        }
    }
}

/// While the tmux pane holds the mouse, every event but a left click goes to its client, moved
/// into the pane if need be, wherever on the screen it is; the hold ends with a release.
pub proof fn law_held_mouse_stays_with_the_pane(screen: ScreenView, mouse: MouseEvent, app: AppView)
    requires
        mouse.kind != MouseEventKind::Down(MouseButton::Left),
    ensures
        ({
            let routed = route(screen, mouse, app, true);
            &&& routed.result == MouseRoutingResult::Handled
            &&& routed.send == Some(pane_report(mouse, screen.pane_area))
            &&& routed.captured == !(mouse.kind is Up)
            &&& routed.app == app
            &&& !routed.restart_pane
        }),
{
}

/// Only a left click changes the selection, starts another tmux client or exits.
pub proof fn law_only_a_left_click_selects(
    screen: ScreenView,
    mouse: MouseEvent,
    app: AppView,
    captured: bool,
)
    requires
        mouse.kind != MouseEventKind::Down(MouseButton::Left),
    ensures
        ({
            let routed = route(screen, mouse, app, captured);
            &&& routed.app == app
            &&& !routed.restart_pane
            &&& routed.result != MouseRoutingResult::Exit
        }),
{
}

/// A left click anywhere on the last line of the sidebar exits, and changes nothing.
pub proof fn law_footer_click_exits(
    screen: ScreenView,
    mouse: MouseEvent,
    app: AppView,
    captured: bool,
)
    requires
        mouse.kind == MouseEventKind::Down(MouseButton::Left),
        rect_holds(sidebar_parts(screen.sidebar_area).1, mouse.column, mouse.row),
    ensures
        ({
            let routed = route(screen, mouse, app, captured);
            &&& routed.result == MouseRoutingResult::Exit
            &&& routed.app == app
            &&& routed.send is None
            &&& !routed.restart_pane
        }),
{
}

/// A mouse event that nothing claims reaches the tmux client as the bytes that reported it.
pub proof fn law_unclaimed_report_is_sent_as_it_came(
    screen: ScreenView,
    pending: Seq<u8>,
    app: AppView,
    captured: bool,
    event: MouseEvent,
    len: nat,
)
    requires
        mouse_token(pending) == MouseToken::Report(event, len),
        route(screen, event, app, captured).result == MouseRoutingResult::NotHandled,
    ensures
        drain(screen, pending, app, captured) == drain(
            screen,
            pending.skip(len as int),
            app,
            route(screen, event, app, captured).captured,
        ).after(seq![ActionView::Send(pending.take(len as int))]),
{
    let routed = route(screen, event, app, captured);
    lemma_report_step(screen, pending, app, captured, event, len, routed);
}

/// Whatever the user does, the sessions stay as they are, and the selection stays among them.
pub proof fn law_input_keeps_the_selection_in_range(
    screen: ScreenView,
    pending: Seq<u8>,
    app: AppView,
    captured: bool,
)
    requires
        app.selection_in_range(),
    ensures
        drain(screen, pending, app, captured).app.sessions == app.sessions,
        drain(screen, pending, app, captured).app.selection_in_range(),
    decreases pending.len(),
{
    lemma_step_advances(pending);
    match next_input(pending) {
        InputStep::Wait => {
            lemma_wait_step(screen, pending, app, captured);
        },
        InputStep::Plain(n) => {
            lemma_plain_step(screen, pending, app, captured, n);
            law_input_keeps_the_selection_in_range(
                screen,
                pending.skip(n as int),
                app,
                captured,
            );
        },
        InputStep::Report(event, n) => {
            let routed = route(screen, event, app, captured);
            lemma_report_step(screen, pending, app, captured, event, n, routed);
            assert(routed.app.sessions == app.sessions && routed.app.selection_in_range());
            if routed.result != MouseRoutingResult::Exit {
                law_input_keeps_the_selection_in_range(
                    screen,
                    pending.skip(n as int),
                    routed.app,
                    routed.captured,
                );
            }
        },
    }
}

/// Whether actions give up the tmux client.
pub open spec fn restarts(actions: Seq<ActionView>) -> bool {
    exists|i: int| 0 <= i < actions.len() && (#[trigger] actions[i]) is RestartPane
}

/// The selection changes only where the tmux client is given up, so that no client goes on
/// showing what is not selected.
pub proof fn law_selection_changes_with_the_client(
    screen: ScreenView,
    pending: Seq<u8>,
    app: AppView,
    captured: bool,
)
    requires
        !restarts(drain(screen, pending, app, captured).actions),
    ensures
        drain(screen, pending, app, captured).app == app,
    decreases pending.len(),
{
    let drained = drain(screen, pending, app, captured);
    lemma_step_advances(pending);
    match next_input(pending) {
        InputStep::Wait => {
            lemma_wait_step(screen, pending, app, captured);
        },
        InputStep::Plain(n) => {
            lemma_plain_step(screen, pending, app, captured, n);
            let rest = drain(screen, pending.skip(n as int), app, captured);
            lemma_later_restart(seq![ActionView::Send(pending.take(n as int))], rest.actions);
            law_selection_changes_with_the_client(screen, pending.skip(n as int), app, captured);
        },
        InputStep::Report(event, n) => {
            let routed = route(screen, event, app, captured);
            let actions = report_actions(routed, pending.take(n as int));
            lemma_report_step(screen, pending, app, captured, event, n, routed);
            if routed.restart_pane {
                assert(actions[0] is RestartPane);
                assert(drained.actions[0] is RestartPane);
            }
            assert(routed.app == app);
            if routed.result != MouseRoutingResult::Exit {
                let rest = drain(screen, pending.skip(n as int), routed.app, routed.captured);
                lemma_later_restart(actions, rest.actions);
                law_selection_changes_with_the_client(
                    screen,
                    pending.skip(n as int),
                    routed.app,
                    routed.captured,
                );
            }
        },
    }
}

proof fn lemma_later_restart(a: Seq<ActionView>, b: Seq<ActionView>)
    ensures
        restarts(b) ==> restarts(a + b),
{
    if restarts(b) {
        let i = choose|i: int| 0 <= i < b.len() && (#[trigger] b[i]) is RestartPane;
        assert((a + b)[a.len() + i] is RestartPane);
    }
}

} // verus!
