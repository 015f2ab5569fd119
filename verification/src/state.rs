//! What the chooser shows: the sessions, the selection and the recent panes.

use crate::order::{is_stable_sort_of, stable_sort, Ranked};
use crate::panes::{
    lists_in_order, ordered_list, pane_views, session_entries, table_of, PaneKey, PaneTable,
    PaneView, RecentPane,
};
use crate::text::{is_text_le, lemma_text_le_total, lemma_text_le_transitive, text_le};
use crate::tmux::TmuxSession;
use vstd::prelude::*;

verus! {

/// Sessions are listed by name.
impl Ranked for TmuxSession {
    open spec fn rank_le(self, other: Self) -> bool {
        text_le(self.name@, other.name@)
    }

    proof fn rank_total(a: Self, b: Self) {
        lemma_text_le_total(a.name@, b.name@);
    }

    proof fn rank_transitive(a: Self, b: Self, c: Self) {
        lemma_text_le_transitive(a.name@, b.name@, c.name@);
    }

    fn is_rank_le(&self, other: &Self) -> (yes: bool) {
        is_text_le(self.name.as_str(), other.name.as_str())
    }
}

/// The pane that a client is to focus after it has attached.
#[derive(Debug, PartialEq, Eq)]
pub struct SelectedPaneTarget {
    pub pane_id: String,
}

impl Clone for SelectedPaneTarget {
    fn clone(&self) -> (copy: Self)
        ensures
            copy == *self,
    {
        SelectedPaneTarget { pane_id: self.pane_id.clone() }
    }
}

#[derive(Clone, Debug)]
pub struct AppState {
    pub sessions: Vec<TmuxSession>,
    pub selected: usize,
    pub selected_pane: Option<SelectedPaneTarget>,
    pub recent_panes: PaneTable,
}

/// What the state shows.
pub struct AppView {
    pub sessions: Seq<TmuxSession>,
    pub selected: nat,
    /// The id of the selected pane.
    pub selected_pane: Option<Seq<char>>,
    pub recent: Map<PaneKey, PaneView>,
}

impl View for AppState {
    type V = AppView;

    open spec fn view(&self) -> AppView {
        AppView {
            sessions: self.sessions@,
            selected: self.selected as nat,
            selected_pane: match self.selected_pane {
                Some(target) => Some(target.pane_id@),
                None => None,
            },
            recent: self.recent_panes@,
        }
    }
}

impl AppView {
    /// The id of the selected session; empty where the selection names none.
    pub open spec fn selected_session_id(self) -> Seq<char> {
        if self.selected < self.sessions.len() {
            self.sessions[self.selected as int].id@
        } else {
            Seq::empty()
        }
    }

    /// Whether the selection names a session, if there are any.
    pub open spec fn selection_in_range(self) -> bool {
        self.sessions.len() > 0 ==> self.selected < self.sessions.len()
    }

    /// The state once `panes` are the recent ones. A selected pane that is not among them is
    /// given up.
    pub open spec fn observe(self, panes: Seq<PaneView>) -> AppView {
        let recent = table_of(panes);
        AppView {
            recent,
            selected_pane: match self.selected_pane {
                Some(pane_id) => if recent.contains_key((self.selected_session_id(), pane_id)) {
                    Some(pane_id)
                } else {
                    None
                },
                None => None,
            },
            ..self
        }
    }

    pub open spec fn select_session(self, index: nat) -> AppView {
        if index < self.sessions.len() {
            AppView { selected: index, selected_pane: None, ..self }
        } else {
            self
        }
    }

    pub open spec fn select_pane(self, session_index: nat, pane_id: Seq<char>) -> AppView {
        if session_index < self.sessions.len() {
            AppView { selected: session_index, selected_pane: Some(pane_id), ..self }
        } else {
            self
        }
    }

    pub open spec fn move_up(self) -> AppView {
        if self.sessions.len() == 0 {
            self
        } else if self.selected == 0 {
            AppView {
                selected: (self.sessions.len() - 1) as nat,
                selected_pane: None,
                ..self
            }
        } else {
            AppView { selected: (self.selected - 1) as nat, selected_pane: None, ..self }
        }
    }

    pub open spec fn move_down(self) -> AppView {
        if self.sessions.len() == 0 {
            self
        } else {
            AppView {
                selected: (self.selected + 1) % self.sessions.len(),
                selected_pane: None,
                ..self
            }
        }
    }
}

/// The first attached session; the first of all where none is attached.
pub open spec fn initial_selection(sessions: Seq<TmuxSession>, selected: int) -> bool {
    ||| 0 <= selected < sessions.len() && sessions[selected].attached && forall|i: int|
        0 <= i < selected ==> !(#[trigger] sessions[i]).attached
    ||| selected == 0 && forall|i: int| 0 <= i < sessions.len() ==> !(#[trigger] sessions[i]).attached
}

impl AppState {
    /// The sessions by name, the first attached one selected.
    pub fn new(sessions: Vec<TmuxSession>) -> (state: AppState)
        ensures
            is_stable_sort_of(state@.sessions, sessions@),
            initial_selection(state@.sessions, state@.selected as int),
            state@.selected_pane is None,
            state@.recent == Map::<PaneKey, PaneView>::empty(),
    {
        let sessions = stable_sort(sessions);
        let mut selected: usize = 0;
        while selected < sessions.len() && !sessions[selected].attached
            invariant
                selected <= sessions.len(),
                forall|i: int| 0 <= i < selected ==> !(#[trigger] sessions@[i]).attached,
            decreases sessions.len() - selected,
        {
            selected = selected + 1;
        }
        if selected == sessions.len() {
            selected = 0;
        }
        AppState { sessions, selected, selected_pane: None, recent_panes: PaneTable::new() }
    }

    pub fn is_empty(&self) -> (empty: bool)
        ensures
            empty == (self@.sessions.len() == 0),
    {
        self.sessions.len() == 0
    }

    /// Takes over the recent panes; what was known before is gone.
    pub fn observe_recent_panes(&mut self, panes: Vec<RecentPane>)
        ensures
            final(self)@ == old(self)@.observe(pane_views(panes@)),
    {
        let ghost all = panes@;
        let mut table = PaneTable::new();
        let mut rest = panes;
        let ghost mut taken: int = 0;
        proof {
            assert(pane_views(all.take(0)) =~= Seq::empty());
            assert(all.skip(0) =~= all);
        }
        while rest.len() > 0
            invariant
                0 <= taken <= all.len(),
                rest@ == all.skip(taken),
                table@ == table_of(pane_views(all.take(taken))),
            decreases rest.len(),
        {
            let pane = rest.remove(0);
            proof {
                let longer = pane_views(all.take(taken + 1));
                assert(longer.drop_last() =~= pane_views(all.take(taken)));
                assert(longer.last() == pane@);
                assert(rest@ =~= all.skip(taken + 1));
                taken = taken + 1;
            }
            table.insert(pane);
        }
        assert(all.take(taken) =~= all);
        self.recent_panes = table;

        let keep = match &self.selected_pane {
            Some(target) => {
                if self.selected < self.sessions.len() {
                    self.recent_panes.contains(
                        self.sessions[self.selected].id.as_str(),
                        target.pane_id.as_str(),
                    )
                } else {
                    proof {
                        reveal_strlit("");
                        assert(""@ =~= Seq::<char>::empty());
                    }
                    self.recent_panes.contains("", target.pane_id.as_str())
                }
            },
            None => true,
        };
        if !keep {
            self.selected_pane = None;
        }
    }

    /// The recent panes of a session, in the order of panes.
    pub fn recent_panes_for_session(&self, session_id: &str) -> (panes: Vec<RecentPane>)
        ensures
            lists_in_order(pane_views(panes@), session_entries(self@.recent, session_id@)),
            pane_views(panes@) == ordered_list(session_entries(self@.recent, session_id@)),
    {
        self.recent_panes.of_session(session_id)
    }

    pub fn selected_pane_target(&self) -> (target: Option<&SelectedPaneTarget>)
        ensures
            match target {
                Some(target) => self@.selected_pane == Some(target.pane_id@),
                None => self@.selected_pane is None,
            },
    {
        self.selected_pane.as_ref()
    }

    /// Selects a session, and no pane; an index out of range changes nothing.
    pub fn select_session(&mut self, index: usize)
        ensures
            final(self)@ == old(self)@.select_session(index as nat),
    {
        if index >= self.sessions.len() {
            return;
        }
        self.selected = index;
        self.selected_pane = None;
    }

    /// Selects a session and a pane in it; an index out of range changes nothing.
    pub fn select_pane(&mut self, session_index: usize, pane: &RecentPane)
        ensures
            final(self)@ == old(self)@.select_pane(session_index as nat, pane@.pane_id),
    {
        if session_index >= self.sessions.len() {
            return;
        }
        self.selected = session_index;
        self.selected_pane = Some(SelectedPaneTarget { pane_id: pane.pane_id.clone() });
    }

    /// Selects the session above, and the last one from the first.
    pub fn move_up(&mut self)
        ensures
            final(self)@ == old(self)@.move_up(),
    {
        if self.sessions.len() == 0 {
            return;
        }
        if self.selected == 0 {
            self.selected = self.sessions.len() - 1;
        } else {
            self.selected = self.selected - 1;
        }
        self.selected_pane = None;
    }

    /// Selects the session below, and the first one from the last.
    pub fn move_down(&mut self)
        requires
            old(self)@.sessions.len() > 0 ==> old(self)@.selected < usize::MAX,
        ensures
            final(self)@ == old(self)@.move_down(),
    {
        if self.sessions.len() == 0 {
            return;
        }
        self.selected = (self.selected + 1) % self.sessions.len();
        self.selected_pane = None;
    }
}

} // verus!
