//! What holds of the selection and of the recent panes.

use crate::order::{is_stable_sort_of, peers_of, same_rank, Ranked};
use crate::panes::{session_entries, table_of, PaneKey, PaneView};
use crate::state::{initial_selection, AppView};
use crate::text::{lemma_text_le_antisymmetric, lemma_text_le_total, text_le};
use crate::tmux::TmuxSession;
use vstd::prelude::*;

verus! {

proof fn lemma_wrapped(index: nat, len: nat)
    requires
        len > 0,
    ensures
        index % len < len,
        index < len ==> index % len == index,
        index == len ==> index % len == 0,
{
    assert(index % len < len && (index < len ==> index % len == index) && (index == len ==> index
        % len == 0)) by (nonlinear_arith)
        requires
            len > 0,
    ;
}

/// Moving up and moving down undo each other, but for a selected pane, which is given up.
pub proof fn law_moves_undo_each_other(app: AppView)
    requires
        app.selection_in_range(),
        app.sessions.len() > 0,
    ensures
        app.move_up().move_down() == (AppView { selected_pane: None, ..app }),
        app.move_down().move_up() == (AppView { selected_pane: None, ..app }),
{
    lemma_wrapped(app.selected, app.sessions.len());
    lemma_wrapped(app.selected + 1, app.sessions.len());
    lemma_wrapped(app.sessions.len(), app.sessions.len());
}

/// From the last session the selection moves down to the first, and from the first up to the
/// last.
pub proof fn law_selection_wraps_around(app: AppView)
    requires
        app.sessions.len() > 0,
    ensures
        app.selected == app.sessions.len() - 1 ==> app.move_down().selected == 0,
        app.selected == 0 ==> app.move_up().selected == app.sessions.len() - 1,
{
    lemma_wrapped(app.selected + 1, app.sessions.len());
}

/// Whatever is done, the selection names a session if there are any, and the sessions stay.
pub proof fn law_selection_stays_in_range(
    app: AppView,
    index: nat,
    pane_id: Seq<char>,
    panes: Seq<PaneView>,
)
    requires
        app.selection_in_range(),
    ensures
        app.move_up().selection_in_range(),
        app.move_down().selection_in_range(),
        app.select_session(index).selection_in_range(),
        app.select_pane(index, pane_id).selection_in_range(),
        app.observe(panes).selection_in_range(),
        app.move_up().sessions == app.sessions,
        app.move_down().sessions == app.sessions,
        app.select_session(index).sessions == app.sessions,
        app.select_pane(index, pane_id).sessions == app.sessions,
        app.observe(panes).sessions == app.sessions,
{
    if app.sessions.len() > 0 {
        lemma_wrapped(app.selected + 1, app.sessions.len());
    }
}

/// After recent panes were observed, a selected pane is one of them; and a selected pane that
/// is one of them stays selected.
pub proof fn law_selected_pane_is_recent(app: AppView, panes: Seq<PaneView>)
    ensures
        ({
            let after = app.observe(panes);
            &&& after.selected_pane matches Some(pane_id) ==> after.recent.contains_key(
                (after.selected_session_id(), pane_id),
            )
            &&& app.selected_pane matches Some(pane_id) ==> table_of(panes).contains_key(
                (app.selected_session_id(), pane_id),
            ) ==> after.selected_pane == Some(pane_id)
        }),
{
}

proof fn lemma_table_entry(panes: Seq<PaneView>, key: PaneKey)
    ensures
        table_of(panes).contains_key(key) == exists|i: int|
            0 <= i < panes.len() && (#[trigger] panes[i]).key() == key,
        table_of(panes).contains_key(key) ==> table_of(panes)[key].key() == key,
    decreases panes.len(),
{
    if panes.len() > 0 {
        let shorter = panes.drop_last();
        lemma_table_entry(shorter, key);
        if table_of(shorter).contains_key(key) {
            let i = choose|i: int| 0 <= i < shorter.len() && (#[trigger] shorter[i]).key() == key;
            assert(panes[i].key() == key);
        }
        if panes.last().key() == key {
            assert(panes[panes.len() - 1].key() == key);
        }
        if exists|i: int| 0 <= i < panes.len() && (#[trigger] panes[i]).key() == key {
            let i = choose|i: int| 0 <= i < panes.len() && (#[trigger] panes[i]).key() == key;
            if i < shorter.len() {
                assert(shorter[i].key() == key);
            }
        }
    }
}

/// A session has those of the observed panes that carry its id, whatever its name.
pub proof fn law_panes_follow_the_session_id(
    app: AppView,
    panes: Seq<PaneView>,
    session_id: Seq<char>,
    pane_id: Seq<char>,
)
    ensures
        session_entries(app.observe(panes).recent, session_id).contains_key((session_id, pane_id))
            == exists|i: int|
            0 <= i < panes.len() && (#[trigger] panes[i]).session_id == session_id
                && panes[i].pane_id == pane_id,
        forall|key: PaneKey| #[trigger]
            session_entries(app.observe(panes).recent, session_id).contains_key(key) ==> key.0
                == session_id,
{
    let key = (session_id, pane_id);
    lemma_table_entry(panes, key);
    if exists|i: int| 0 <= i < panes.len() && (#[trigger] panes[i]).key() == key {
        let i = choose|i: int| 0 <= i < panes.len() && (#[trigger] panes[i]).key() == key;
        assert(panes[i].session_id == session_id && panes[i].pane_id == pane_id);
    }
    if exists|i: int|
        0 <= i < panes.len() && (#[trigger] panes[i]).session_id == session_id && panes[i].pane_id
            == pane_id {
        let i = choose|i: int|
            0 <= i < panes.len() && (#[trigger] panes[i]).session_id == session_id
                && panes[i].pane_id == pane_id;
        assert(panes[i].key() == key);
    }
    let table = table_of(panes);
    let entries = session_entries(table, session_id);
    if table.contains_key(key) {
        assert(table[key].key() == key);
        assert(entries.contains_key(key));
    }
    assert forall|other: PaneKey| #[trigger] entries.contains_key(other) implies other.0
        == session_id by {
        lemma_table_entry(panes, other);
    }
}

/// Selecting a session selects it, and no pane; an index out of range changes nothing. What is
/// there to select stays.
pub proof fn law_selecting_a_session_selects_it(app: AppView, index: nat)
    ensures
        app.select_session(index).sessions == app.sessions,
        app.select_session(index).recent == app.recent,
        index < app.sessions.len() ==> app.select_session(index).selected == index,
        index < app.sessions.len() ==> app.select_session(index).selected_pane is None,
        index >= app.sessions.len() ==> app.select_session(index) == app,
{
}

/// Selecting a pane selects it and its session; an index out of range changes nothing. What is
/// there to select stays.
pub proof fn law_selecting_a_pane_selects_it(app: AppView, index: nat, pane_id: Seq<char>)
    ensures
        app.select_pane(index, pane_id).sessions == app.sessions,
        app.select_pane(index, pane_id).recent == app.recent,
        index < app.sessions.len() ==> app.select_pane(index, pane_id).selected == index,
        index < app.sessions.len() ==> app.select_pane(index, pane_id).selected_pane == Some(
            pane_id,
        ),
        index >= app.sessions.len() ==> app.select_pane(index, pane_id) == app,
{
}

/// A move goes to the next session up or down, and gives a selected pane up. Without sessions
/// it changes nothing.
pub proof fn law_move_goes_to_the_next_session(app: AppView)
    requires
        app.selection_in_range(),
    ensures
        app.selected > 0 && app.sessions.len() > 0 ==> app.move_up().selected == app.selected - 1,
        app.selected + 1 < app.sessions.len() ==> app.move_down().selected == app.selected + 1,
        app.sessions.len() > 0 ==> app.move_up().selected_pane is None,
        app.sessions.len() > 0 ==> app.move_down().selected_pane is None,
        app.move_up().recent == app.recent,
        app.move_down().recent == app.recent,
        app.sessions.len() == 0 ==> app.move_up() == app && app.move_down() == app,
{
    if app.sessions.len() > 0 {
        lemma_wrapped(app.selected + 1, app.sessions.len());
    }
}

/// Observing recent panes does not move the selection to another session or pane: a selected
/// pane is kept or given up.
pub proof fn law_observing_does_not_move_the_selection(app: AppView, panes: Seq<PaneView>)
    ensures
        app.observe(panes).selected == app.selected,
        app.observe(panes).selected_pane is None || app.observe(panes).selected_pane
            == app.selected_pane,
{
}

/// Of observed panes with the same ids the last one counts, with its title and its time; what
/// was observed before is gone.
pub proof fn law_last_of_equal_panes_counts(app: AppView, panes: Seq<PaneView>, i: int)
    requires
        0 <= i < panes.len(),
        forall|j: int|
            i < j < panes.len() ==> (#[trigger] panes[j]).session_id != panes[i].session_id
                || panes[j].pane_id != panes[i].pane_id,
    ensures
        app.observe(panes).recent.contains_key((panes[i].session_id, panes[i].pane_id)),
        app.observe(panes).recent[(panes[i].session_id, panes[i].pane_id)] == panes[i],
    decreases panes.len(),
{
    let shorter = panes.drop_last();
    if i < shorter.len() {
        assert(panes[panes.len() - 1].key() != panes[i].key());
        assert forall|j: int| i < j < shorter.len() implies (#[trigger] shorter[j]).session_id
            != shorter[i].session_id || shorter[j].pane_id != shorter[i].pane_id by {
            assert(shorter[j] == panes[j]);
        }
        law_last_of_equal_panes_counts(app, shorter, i);
    }
}

/// A pane is known after a list was observed if and only if it is in the list.
pub proof fn law_observed_panes_are_known(app: AppView, panes: Seq<PaneView>, key: PaneKey)
    ensures
        app.observe(panes).recent.contains_key(key) == exists|i: int|
            0 <= i < panes.len() && (#[trigger] panes[i]).session_id == key.0 && panes[i].pane_id
                == key.1,
{
    lemma_table_entry(panes, key);
    if app.observe(panes).recent.contains_key(key) {
        let i = choose|i: int| 0 <= i < panes.len() && (#[trigger] panes[i]).key() == key;
        assert(panes[i].session_id == key.0);
    }
    if exists|i: int|
        0 <= i < panes.len() && (#[trigger] panes[i]).session_id == key.0 && panes[i].pane_id
            == key.1 {
        let i = choose|i: int|
            0 <= i < panes.len() && (#[trigger] panes[i]).session_id == key.0 && panes[i].pane_id
                == key.1;
        assert(panes[i].key() == key);
    }
}

/// The entries of a session are those of its panes, as they are.
pub proof fn law_entries_of_a_session_are_its_own(
    table: Map<PaneKey, PaneView>,
    session_id: Seq<char>,
    key: PaneKey,
)
    ensures
        session_entries(table, session_id).contains_key(key) == (table.contains_key(key)
            && table[key].session_id == session_id),
        session_entries(table, session_id).contains_key(key) ==> session_entries(
            table,
            session_id,
        )[key] == table[key],
{
}

/// At first the attached session is selected, the first of them if there are several; where
/// none is attached, the first of all.
pub proof fn law_attached_session_is_selected_first(sessions: Seq<TmuxSession>, selected: int)
    requires
        initial_selection(sessions, selected),
    ensures
        forall|i: int|
            0 <= i < sessions.len() && (#[trigger] sessions[i]).attached ==> selected <= i
                && selected < sessions.len() && sessions[selected].attached,
        (forall|i: int| 0 <= i < sessions.len() ==> !(#[trigger] sessions[i]).attached)
            ==> selected == 0,
        0 <= selected,
        sessions.len() > 0 ==> selected < sessions.len(),
{
}

/// Sessions are listed by name: all of them, and those of one name in the order that they had.
pub proof fn law_sessions_are_listed_by_name(
    sorted: Seq<TmuxSession>,
    sessions: Seq<TmuxSession>,
    i: int,
    j: int,
    name: Seq<char>,
)
    requires
        is_stable_sort_of(sorted, sessions),
    ensures
        sorted.len() == sessions.len(),
        sorted.to_multiset() == sessions.to_multiset(),
        0 <= i < j < sorted.len() ==> text_le(sorted[i].name@, sorted[j].name@),
        sorted.filter(|session: TmuxSession| session.name@ == name) == sessions.filter(
            |session: TmuxSession| session.name@ == name,
        ),
{
    sorted.to_multiset_ensures();
    sessions.to_multiset_ensures();
    if 0 <= i < j < sorted.len() {
        assert(sorted[i].rank_le(sorted[j]));
    }
    let named = |session: TmuxSession| session.name@ == name;
    if exists|k: int| 0 <= k < sorted.len() && named(#[trigger] sorted[k]) {
        let k = choose|k: int| 0 <= k < sorted.len() && named(#[trigger] sorted[k]);
        let peer = sorted[k];
        assert(peers_of(sorted, peer) == peers_of(sessions, peer));
        assert forall|other: TmuxSession| #[trigger] same_rank(peer, other) == named(other) by {
            if same_rank(peer, other) {
                lemma_text_le_antisymmetric(peer.name@, other.name@);
            }
            lemma_text_le_total(peer.name@, peer.name@);
        }
        assert((|other: TmuxSession| same_rank(peer, other)) =~= named);
    } else {
        lemma_none_are_kept(sorted, named);
        assert forall|k: int| 0 <= k < sessions.len() implies !named(#[trigger] sessions[k]) by {
            assert(sessions.contains(sessions[k]));
            assert(sessions.to_multiset().count(sessions[k]) > 0);
            assert(sorted.contains(sessions[k]));
        }
        lemma_none_are_kept(sessions, named);
    }
}

proof fn lemma_none_are_kept(sessions: Seq<TmuxSession>, keep: spec_fn(TmuxSession) -> bool)
    requires
        forall|k: int| 0 <= k < sessions.len() ==> !keep(#[trigger] sessions[k]),
    ensures
        sessions.filter(keep) == Seq::<TmuxSession>::empty(),
    decreases sessions.len(),
{
    reveal(Seq::filter);
    if sessions.len() > 0 {
        let shorter = sessions.drop_last();
        assert forall|k: int| 0 <= k < shorter.len() implies !keep(#[trigger] shorter[k]) by {
            assert(shorter[k] == sessions[k]);
        }
        lemma_none_are_kept(shorter, keep);
        assert(!keep(sessions[sessions.len() - 1]));
    }
}

} // verus!
