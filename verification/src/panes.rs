//! Panes with recent activity, and the table that holds one entry for each of them.

use crate::order::{is_stable_sort_of, stable_sort, Ranked};
use crate::text::{
    is_text_le, lemma_text_le_antisymmetric, lemma_text_le_total, lemma_text_le_transitive,
    same_text, text_le,
};
use vstd::prelude::*;

verus! {

/// A moment, in nanoseconds after the Unix epoch (before it, where negative).
#[derive(Clone, Copy, Debug, PartialEq, Eq, Structural)]
pub struct Timestamp {
    pub nanos: i128,
}

impl Timestamp {
    /// The moment so many milliseconds after the epoch.
    pub fn from_millis(millis: u64) -> (at: Timestamp)
        ensures
            at.nanos == millis * 1_000_000,
    {
        Timestamp { nanos: millis as i128 * 1_000_000 }
    }

    /// The moment so many seconds after the epoch.
    pub fn from_secs(secs: u64) -> (at: Timestamp)
        ensures
            at.nanos == secs * 1_000_000_000,
    {
        Timestamp { nanos: secs as i128 * 1_000_000_000 }
    }
}

/// A pane that asked for attention.
#[derive(Debug, PartialEq, Eq)]
pub struct RecentPane {
    pub session_id: String,
    pub pane_id: String,
    pub title: String,
    pub observed_at: Timestamp,
}

/// What identifies a pane: the ids of its session and of the pane.
pub type PaneKey = (Seq<char>, Seq<char>);

/// What a [`RecentPane`] says.
pub struct PaneView {
    pub session_id: Seq<char>,
    pub pane_id: Seq<char>,
    pub title: Seq<char>,
    pub observed_at: int,
}

impl PaneView {
    pub open spec fn key(self) -> PaneKey {
        (self.session_id, self.pane_id)
    }
}

impl View for RecentPane {
    type V = PaneView;

    open spec fn view(&self) -> PaneView {
        PaneView {
            session_id: self.session_id@,
            pane_id: self.pane_id@,
            title: self.title@,
            observed_at: self.observed_at.nanos as int,
        }
    }
}

impl Clone for RecentPane {
    fn clone(&self) -> (copy: Self)
        ensures
            copy == *self,
    {
        RecentPane {
            session_id: self.session_id.clone(),
            pane_id: self.pane_id.clone(),
            title: self.title.clone(),
            observed_at: self.observed_at,
        }
    }
}

/// The order in which panes are listed: the latest first, then by title, then by pane id.
pub open spec fn pane_le(a: PaneView, b: PaneView) -> bool {
    if a.observed_at != b.observed_at {
        a.observed_at > b.observed_at
    } else if a.title != b.title {
        text_le(a.title, b.title)
    } else {
        text_le(a.pane_id, b.pane_id)
    }
}

impl Ranked for RecentPane {
    open spec fn rank_le(self, other: Self) -> bool {
        pane_le(self@, other@)
    }

    proof fn rank_total(a: Self, b: Self) {
        lemma_text_le_total(a@.title, b@.title);
        lemma_text_le_total(a@.pane_id, b@.pane_id);
    }

    proof fn rank_transitive(a: Self, b: Self, c: Self) {
        lemma_pane_le_transitive(a@, b@, c@);
    }

    fn is_rank_le(&self, other: &Self) -> (yes: bool) {
        if self.observed_at.nanos != other.observed_at.nanos {
            self.observed_at.nanos > other.observed_at.nanos
        } else if !same_text(self.title.as_str(), other.title.as_str()) {
            is_text_le(self.title.as_str(), other.title.as_str())
        } else {
            is_text_le(self.pane_id.as_str(), other.pane_id.as_str())
        }
    }
}

proof fn lemma_pane_le_transitive(a: PaneView, b: PaneView, c: PaneView)
    requires
        pane_le(a, b),
        pane_le(b, c),
    ensures
        pane_le(a, c),
{
    if a.observed_at == b.observed_at && b.observed_at == c.observed_at {
        if a.title == b.title && b.title == c.title {
            lemma_text_le_transitive(a.pane_id, b.pane_id, c.pane_id);
        } else if a.title != b.title && b.title != c.title {
            lemma_text_le_transitive(a.title, b.title, c.title);
            if a.title == c.title {
                lemma_text_le_antisymmetric(a.title, b.title);
            }
        }
    }
}

pub open spec fn pane_views(panes: Seq<RecentPane>) -> Seq<PaneView> {
    panes.map_values(|pane: RecentPane| pane@)
}

pub open spec fn in_pane_order(panes: Seq<PaneView>) -> bool {
    forall|i: int, j: int|
        0 <= i < j < panes.len() ==> pane_le(#[trigger] panes[i], #[trigger] panes[j])
}

pub open spec fn distinct_keys(panes: Seq<PaneView>) -> bool {
    forall|i: int, j: int|
        0 <= i < j < panes.len() ==> (#[trigger] panes[i]).key() != (#[trigger] panes[j]).key()
}

/// `panes` lists every entry of `table` once, and nothing else.
pub open spec fn lists(panes: Seq<PaneView>, table: Map<PaneKey, PaneView>) -> bool {
    &&& distinct_keys(panes)
    &&& forall|i: int|
        0 <= i < panes.len() ==> table.contains_key((#[trigger] panes[i]).key())
            && table[panes[i].key()] == panes[i]
    &&& forall|key: PaneKey| #[trigger]
        table.contains_key(key) ==> exists|i: int|
            0 <= i < panes.len() && (#[trigger] panes[i]).key() == key
}

/// `panes` is the list of `table` in the order of panes.
pub open spec fn lists_in_order(panes: Seq<PaneView>, table: Map<PaneKey, PaneView>) -> bool {
    lists(panes, table) && in_pane_order(panes)
}

/// The table of some panes. Of panes with the same identity the last one counts.
pub open spec fn table_of(panes: Seq<PaneView>) -> Map<PaneKey, PaneView>
    decreases panes.len(),
{
    if panes.len() == 0 {
        Map::empty()
    } else {
        table_of(panes.drop_last()).insert(panes.last().key(), panes.last())
    }
}

proof fn lemma_distinct_panes_list_their_table(panes: Seq<PaneView>)
    requires
        distinct_keys(panes),
    ensures
        lists(panes, table_of(panes)),
    decreases panes.len(),
{
    if panes.len() > 0 {
        let shorter = panes.drop_last();
        assert(distinct_keys(shorter)) by {
            assert forall|i: int, j: int| 0 <= i < j < shorter.len() implies (
            #[trigger] shorter[i]).key() != (#[trigger] shorter[j]).key() by {
                assert(panes[i].key() != panes[j].key());
            }
        }
        lemma_distinct_panes_list_their_table(shorter);
        let table = table_of(panes);
        assert forall|i: int| 0 <= i < panes.len() implies table.contains_key(
            (#[trigger] panes[i]).key(),
        ) && table[panes[i].key()] == panes[i] by {
            if i < shorter.len() {
                assert(shorter[i] == panes[i]);
                assert(panes[i].key() != panes[panes.len() - 1].key());
            }
        }
        assert forall|key: PaneKey| #[trigger] table.contains_key(key) implies exists|i: int|
            0 <= i < panes.len() && (#[trigger] panes[i]).key() == key by {
            if key == panes.last().key() {
                assert(panes[panes.len() - 1].key() == key);
            } else {
                assert(table_of(shorter).contains_key(key));
                let i = choose|i: int|
                    0 <= i < shorter.len() && (#[trigger] shorter[i]).key() == key;
                assert(panes[i].key() == key);
            }
        }
    }
}

/// A list determines the table that it lists.
proof fn lemma_listed_table_is_unique(
    panes: Seq<PaneView>,
    a: Map<PaneKey, PaneView>,
    b: Map<PaneKey, PaneView>,
)
    requires
        lists(panes, a),
        lists(panes, b),
    ensures
        a == b,
{
    assert forall|key: PaneKey| a.contains_key(key) == b.contains_key(key) && (a.contains_key(key)
        ==> a[key] == b[key]) by {
        if a.contains_key(key) {
            let i = choose|i: int| 0 <= i < panes.len() && (#[trigger] panes[i]).key() == key;
            assert(b.contains_key(panes[i].key()));
        }
        if b.contains_key(key) {
            let i = choose|i: int| 0 <= i < panes.len() && (#[trigger] panes[i]).key() == key;
            assert(a.contains_key(panes[i].key()));
        }
    }
    assert(a =~= b);
}

/// The table of a list is the table that it lists.
pub proof fn lemma_list_gives_table(panes: Seq<PaneView>, table: Map<PaneKey, PaneView>)
    requires
        lists(panes, table),
    ensures
        table_of(panes) == table,
{
    lemma_distinct_panes_list_their_table(panes);
    lemma_listed_table_is_unique(panes, table_of(panes), table);
}

/// The entries of `table` that are to be kept.
pub open spec fn entries_where(
    table: Map<PaneKey, PaneView>,
    keep: spec_fn(PaneView) -> bool,
) -> Map<PaneKey, PaneView> {
    Map::new(|key: PaneKey| table.contains_key(key) && keep(table[key]), |key: PaneKey| table[key])
}

proof fn lemma_filter_keeps_distinct(panes: Seq<PaneView>, keep: spec_fn(PaneView) -> bool)
    requires
        distinct_keys(panes),
    ensures
        distinct_keys(panes.filter(keep)),
        forall|pane: PaneView| #[trigger]
            panes.filter(keep).contains(pane) <==> panes.contains(pane) && keep(pane),
    decreases panes.len(),
{
    reveal(Seq::filter);
    if panes.len() > 0 {
        let shorter = panes.drop_last();
        assert(distinct_keys(shorter)) by {
            assert forall|i: int, j: int| 0 <= i < j < shorter.len() implies (
            #[trigger] shorter[i]).key() != (#[trigger] shorter[j]).key() by {
                assert(panes[i].key() != panes[j].key());
            }
        }
        lemma_filter_keeps_distinct(shorter, keep);
        let kept = shorter.filter(keep);
        let all = panes.filter(keep);
        assert forall|i: int, j: int| 0 <= i < j < all.len() implies (#[trigger] all[i]).key() != (
        #[trigger] all[j]).key() by {
            if j < kept.len() {
                assert(kept[i].key() != kept[j].key());
            } else {
                assert(kept.contains(kept[i]));
                assert(shorter.contains(kept[i]));
                let k = choose|k: int| 0 <= k < shorter.len() && shorter[k] == kept[i];
                assert(panes[k].key() != panes[panes.len() - 1].key());
            }
        }
        assert forall|pane: PaneView| #[trigger]
            all.contains(pane) <==> panes.contains(pane) && keep(pane) by {
            if all.contains(pane) {
                let i = choose|i: int| 0 <= i < all.len() && all[i] == pane;
                if i < kept.len() {
                    assert(kept.contains(pane));
                    let k = choose|k: int| 0 <= k < shorter.len() && shorter[k] == pane;
                    assert(panes[k] == pane);
                } else {
                    assert(panes[panes.len() - 1] == pane);
                }
            }
            if panes.contains(pane) && keep(pane) {
                let k = choose|k: int| 0 <= k < panes.len() && panes[k] == pane;
                if k < shorter.len() {
                    assert(shorter[k] == pane);
                    assert(kept.contains(pane));
                    let i = choose|i: int| 0 <= i < kept.len() && kept[i] == pane;
                    assert(all[i] == pane);
                } else {
                    assert(all[all.len() - 1] == pane);
                }
            }
        }
    }
}

proof fn lemma_filter_lists(
    panes: Seq<PaneView>,
    table: Map<PaneKey, PaneView>,
    keep: spec_fn(PaneView) -> bool,
)
    requires
        lists(panes, table),
    ensures
        lists(panes.filter(keep), entries_where(table, keep)),
{
    lemma_filter_keeps_distinct(panes, keep);
    let kept = panes.filter(keep);
    let entries = entries_where(table, keep);
    assert forall|i: int| 0 <= i < kept.len() implies entries.contains_key(
        (#[trigger] kept[i]).key(),
    ) && entries[kept[i].key()] == kept[i] by {
        assert(kept.contains(kept[i]));
        let k = choose|k: int| 0 <= k < panes.len() && panes[k] == kept[i];
        assert(table.contains_key(panes[k].key()));
    }
    assert forall|key: PaneKey| #[trigger] entries.contains_key(key) implies exists|i: int|
        0 <= i < kept.len() && (#[trigger] kept[i]).key() == key by {
        let k = choose|k: int| 0 <= k < panes.len() && (#[trigger] panes[k]).key() == key;
        assert(panes.contains(panes[k]));
        assert(kept.contains(panes[k]));
        let i = choose|i: int| 0 <= i < kept.len() && kept[i] == panes[k];
        assert(kept[i].key() == key);
    }
}

proof fn lemma_sorted_lists(
    sorted: Seq<RecentPane>,
    panes: Seq<RecentPane>,
    table: Map<PaneKey, PaneView>,
)
    requires
        lists(pane_views(panes), table),
        is_stable_sort_of(sorted, panes),
    ensures
        lists_in_order(pane_views(sorted), table),
{
    broadcast use vstd::seq_lib::to_multiset_contains;

    let before = pane_views(panes);
    let after = pane_views(sorted);
    assert(panes.no_duplicates()) by {
        assert forall|i: int, j: int|
            0 <= i < panes.len() && 0 <= j < panes.len() && i != j implies panes[i] != panes[j] by {
            assert(before[i] == panes[i]@ && before[j] == panes[j]@);
            if i < j {
                assert(before[i].key() != before[j].key());
            } else {
                assert(before[j].key() != before[i].key());
            }
        }
    }
    panes.lemma_multiset_has_no_duplicates();
    sorted.lemma_multiset_has_no_duplicates_conv();
    assert forall|pane: RecentPane| sorted.contains(pane) == panes.contains(pane) by {
        assert(sorted.to_multiset().count(pane) == panes.to_multiset().count(pane));
    }
    assert forall|i: int| 0 <= i < after.len() implies table.contains_key((#[trigger] after[i]).key())
        && table[after[i].key()] == after[i] by {
        assert(sorted.contains(sorted[i]));
        let k = choose|k: int| 0 <= k < panes.len() && panes[k] == sorted[i];
        assert(before[k] == after[i]);
    }
    assert forall|i: int, j: int| 0 <= i < j < after.len() implies (#[trigger] after[i]).key() != (
    #[trigger] after[j]).key() by {
        assert(sorted.contains(sorted[i]) && sorted.contains(sorted[j]));
        let k = choose|k: int| 0 <= k < panes.len() && panes[k] == sorted[i];
        let l = choose|l: int| 0 <= l < panes.len() && panes[l] == sorted[j];
        assert(sorted[i] != sorted[j]);
        assert(before[k] == after[i] && before[l] == after[j]);
        if k < l {
            assert(before[k].key() != before[l].key());
        } else {
            assert(before[l].key() != before[k].key());
        }
    }
    assert forall|key: PaneKey| #[trigger] table.contains_key(key) implies exists|i: int|
        0 <= i < after.len() && (#[trigger] after[i]).key() == key by {
        let k = choose|k: int| 0 <= k < before.len() && (#[trigger] before[k]).key() == key;
        assert(panes.contains(panes[k]));
        assert(sorted.contains(panes[k]));
        let i = choose|i: int| 0 <= i < sorted.len() && sorted[i] == panes[k];
        assert(after[i].key() == key);
    }
    assert forall|i: int, j: int| 0 <= i < j < after.len() implies pane_le(
        #[trigger] after[i],
        #[trigger] after[j],
    ) by {
        assert(sorted[i].rank_le(sorted[j]));
    }
}

/// The list of `table` in the order of panes.
pub open spec fn ordered_list(table: Map<PaneKey, PaneView>) -> Seq<PaneView> {
    choose|panes: Seq<PaneView>| lists_in_order(panes, table)
}

/// The entries of one session.
pub open spec fn session_entries(
    table: Map<PaneKey, PaneView>,
    session_id: Seq<char>,
) -> Map<PaneKey, PaneView> {
    entries_where(table, |pane: PaneView| pane.session_id == session_id)
}

/// The panes of one session can be listed in order in one way only.
pub proof fn lemma_session_list_is_unique(
    a: Seq<PaneView>,
    b: Seq<PaneView>,
    table: Map<PaneKey, PaneView>,
    session_id: Seq<char>,
)
    requires
        lists_in_order(a, table),
        lists_in_order(b, table),
        forall|key: PaneKey| #[trigger] table.contains_key(key) ==> key.0 == session_id,
    ensures
        a == b,
    decreases a.len(),
{
    if a.len() == 0 {
        if b.len() > 0 {
            assert(table.contains_key(b[0].key()));
            let i = choose|i: int| 0 <= i < a.len() && (#[trigger] a[i]).key() == b[0].key();
            assert(false);
        }
        assert(a =~= b);
    } else {
        assert(table.contains_key(a[0].key()));
        let j = choose|j: int| 0 <= j < b.len() && (#[trigger] b[j]).key() == a[0].key();
        assert(b[j] == a[0]);
        assert(table.contains_key(b[0].key()));
        let i = choose|i: int| 0 <= i < a.len() && (#[trigger] a[i]).key() == b[0].key();
        assert(a[i] == b[0]);
        if j > 0 && i > 0 {
            assert(pane_le(b[0], b[j]));
            assert(pane_le(a[0], a[i]));
            if a[0].title != b[0].title {
                lemma_text_le_antisymmetric(a[0].title, b[0].title);
            }
            lemma_text_le_antisymmetric(a[0].pane_id, b[0].pane_id);
            assert(b[0].key() == b[j].key());
            assert(false);
        }
        if i == 0 && j > 0 {
            assert(b[0].key() == b[j].key());
            assert(false);
        }
        assert(a[0] == b[0]);
        lemma_rest_lists(a, table);
        lemma_rest_lists(b, table);
        lemma_session_list_is_unique(
            a.drop_first(),
            b.drop_first(),
            table.remove(a[0].key()),
            session_id,
        );
        assert(a =~= seq![a[0]] + a.drop_first());
        assert(b =~= seq![b[0]] + b.drop_first());
    }
}

proof fn lemma_rest_lists(panes: Seq<PaneView>, table: Map<PaneKey, PaneView>)
    requires
        lists_in_order(panes, table),
        panes.len() > 0,
    ensures
        lists_in_order(panes.drop_first(), table.remove(panes[0].key())),
{
    let rest = panes.drop_first();
    let fewer = table.remove(panes[0].key());
    assert forall|i: int, j: int| 0 <= i < j < rest.len() implies (#[trigger] rest[i]).key() != (
    #[trigger] rest[j]).key() && pane_le(rest[i], rest[j]) by {
        assert(panes[i + 1].key() != panes[j + 1].key());
        assert(pane_le(panes[i + 1], panes[j + 1]));
    }
    assert forall|i: int| 0 <= i < rest.len() implies fewer.contains_key((#[trigger] rest[i]).key())
        && fewer[rest[i].key()] == rest[i] by {
        assert(rest[i] == panes[i + 1]);
        assert(panes[0].key() != panes[i + 1].key());
    }
    assert forall|key: PaneKey| #[trigger] fewer.contains_key(key) implies exists|i: int|
        0 <= i < rest.len() && (#[trigger] rest[i]).key() == key by {
        assert(table.contains_key(key));
        let k = choose|k: int| 0 <= k < panes.len() && (#[trigger] panes[k]).key() == key;
        assert(rest[k - 1].key() == key);
    }
}

proof fn lemma_pane_le_total(a: PaneView, b: PaneView)
    ensures
        pane_le(a, b) || pane_le(b, a),
{
    lemma_text_le_total(a.title, b.title);
    lemma_text_le_total(a.pane_id, b.pane_id);
}

/// Where a pane may be put into an ordered list.
proof fn lemma_place_in_order(panes: Seq<PaneView>, pane: PaneView) -> (at: int)
    requires
        in_pane_order(panes),
    ensures
        0 <= at <= panes.len(),
        in_pane_order(panes.insert(at, pane)),
    decreases panes.len(),
{
    if panes.len() == 0 {
        0
    } else {
        let last = panes.last();
        let shorter = panes.drop_last();
        assert(in_pane_order(shorter)) by {
            assert forall|i: int, j: int| 0 <= i < j < shorter.len() implies pane_le(
                #[trigger] shorter[i],
                #[trigger] shorter[j],
            ) by {
                assert(pane_le(panes[i], panes[j]));
            }
        }
        if pane_le(last, pane) {
            let after = panes.insert(panes.len() as int, pane);
            assert forall|i: int, j: int| 0 <= i < j < after.len() implies pane_le(
                #[trigger] after[i],
                #[trigger] after[j],
            ) by {
                if j < panes.len() {
                    assert(pane_le(panes[i], panes[j]));
                } else if i < panes.len() - 1 {
                    assert(pane_le(panes[i], panes[panes.len() - 1]));
                    lemma_pane_le_transitive(panes[i], last, pane);
                }
            }
            panes.len() as int
        } else {
            lemma_pane_le_total(last, pane);
            let at = lemma_place_in_order(shorter, pane);
            let fewer = shorter.insert(at, pane);
            let after = panes.insert(at, pane);
            assert forall|i: int, j: int| 0 <= i < j < after.len() implies pane_le(
                #[trigger] after[i],
                #[trigger] after[j],
            ) by {
                if j < fewer.len() {
                    assert(after[i] == fewer[i] && after[j] == fewer[j]);
                } else {
                    assert(after[j] == last);
                    if i < at {
                        assert(after[i] == panes[i]);
                    } else if i > at {
                        assert(after[i] == panes[i - 1]);
                    }
                }
            }
            at
        }
    }
}

/// The list without its entry at `at` lists the table without that entry.
proof fn lemma_list_without(panes: Seq<PaneView>, table: Map<PaneKey, PaneView>, at: int)
    requires
        lists_in_order(panes, table),
        0 <= at < panes.len(),
    ensures
        lists_in_order(panes.remove(at), table.remove(panes[at].key())),
{
    let rest = panes.remove(at);
    let fewer = table.remove(panes[at].key());
    assert forall|i: int| 0 <= i < rest.len() implies (#[trigger] rest[i]) == panes[if i < at {
        i
    } else {
        i + 1
    }] by {}
    assert forall|key: PaneKey| #[trigger] fewer.contains_key(key) implies exists|i: int|
        0 <= i < rest.len() && (#[trigger] rest[i]).key() == key by {
        assert(table.contains_key(key));
        let i = choose|i: int| 0 <= i < panes.len() && (#[trigger] panes[i]).key() == key;
        if i < at {
            assert(rest[i].key() == key);
        } else {
            assert(rest[i - 1].key() == key);
        }
    }
}

/// A list with one more pane lists the table with one more entry.
proof fn lemma_list_with(panes: Seq<PaneView>, table: Map<PaneKey, PaneView>, pane: PaneView) -> (
    list: Seq<PaneView>)
    requires
        lists_in_order(panes, table),
        !table.contains_key(pane.key()),
    ensures
        lists_in_order(list, table.insert(pane.key(), pane)),
{
    let at = lemma_place_in_order(panes, pane);
    let list = panes.insert(at, pane);
    let more = table.insert(pane.key(), pane);
    assert forall|i: int| 0 <= i < list.len() implies more.contains_key((#[trigger] list[i]).key())
        && more[list[i].key()] == list[i] by {
        if i < at {
            assert(list[i] == panes[i]);
        } else if i > at {
            assert(list[i] == panes[i - 1]);
        }
    }
    assert forall|i: int, j: int| 0 <= i < j < list.len() implies (#[trigger] list[i]).key() != (
    #[trigger] list[j]).key() by {
        let x = if i < at {
            i
        } else {
            i - 1
        };
        let y = if j < at {
            j
        } else {
            j - 1
        };
        if i != at && j != at {
            assert(list[i] == panes[x] && list[j] == panes[y]);
        } else if i == at {
            assert(list[j] == panes[y]);
            assert(table.contains_key(panes[y].key()));
        } else {
            assert(list[i] == panes[x]);
            assert(table.contains_key(panes[x].key()));
        }
    }
    assert forall|key: PaneKey| #[trigger] more.contains_key(key) implies exists|i: int|
        0 <= i < list.len() && (#[trigger] list[i]).key() == key by {
        if key == pane.key() {
            assert(list[at].key() == key);
        } else {
            assert(table.contains_key(key));
            let i = choose|i: int| 0 <= i < panes.len() && (#[trigger] panes[i]).key() == key;
            if i < at {
                assert(list[i].key() == key);
            } else {
                assert(list[i + 1].key() == key);
            }
        }
    }
    list
}

/// In a table each pane stands under its own key.
pub proof fn lemma_table_keys(panes: Seq<PaneView>, key: PaneKey)
    ensures
        table_of(panes).contains_key(key) ==> table_of(panes)[key].key() == key,
    decreases panes.len(),
{
    if panes.len() > 0 {
        lemma_table_keys(panes.drop_last(), key);
    }
}

/// The panes of a session can be listed in order.
pub proof fn lemma_session_can_be_listed(panes: Seq<PaneView>, session_id: Seq<char>) -> (list: Seq<
    PaneView,
>)
    ensures
        lists_in_order(list, session_entries(table_of(panes), session_id)),
    decreases panes.len(),
{
    let entries = session_entries(table_of(panes), session_id);
    if panes.len() == 0 {
        assert forall|key: PaneKey| !entries.contains_key(key) by {}
        Seq::empty()
    } else {
        let shorter = panes.drop_last();
        let pane = panes.last();
        let key = pane.key();
        let before = session_entries(table_of(shorter), session_id);
        let list = lemma_session_can_be_listed(shorter, session_id);
        lemma_table_keys(shorter, key);
        if pane.session_id != session_id {
            assert(entries =~= before);
            list
        } else {
            assert(entries =~= before.insert(key, pane));
            if before.contains_key(key) {
                let at = choose|i: int| 0 <= i < list.len() && (#[trigger] list[i]).key() == key;
                lemma_list_without(list, before, at);
                let after = lemma_list_with(list.remove(at), before.remove(key), pane);
                assert(before.remove(key).insert(key, pane) =~= before.insert(key, pane));
                after
            } else {
                lemma_list_with(list, before, pane)
            }
        }
    }
}

/// Copies of the panes that `keep` accepts, in order.
fn select<F: Fn(&RecentPane) -> bool>(
    panes: &Vec<RecentPane>,
    keep: F,
    Ghost(wanted): Ghost<spec_fn(PaneView) -> bool>,
) -> (kept: Vec<RecentPane>)
    requires
        forall|pane: &RecentPane| #[trigger] keep.requires((pane,)),
        forall|pane: &RecentPane, yes: bool| #[trigger]
            keep.ensures((pane,), yes) ==> yes == wanted(pane@),
    ensures
        pane_views(kept@) == pane_views(panes@).filter(wanted),
{
    let mut kept: Vec<RecentPane> = Vec::new();
    let ghost views = pane_views(panes@);
    let mut i: usize = 0;
    proof {
        assert(views.take(0) =~= Seq::empty());
        reveal(Seq::filter);
        assert(pane_views(kept@) =~= views.take(0).filter(wanted));
    }
    while i < panes.len()
        invariant
            i <= panes.len(),
            views == pane_views(panes@),
            forall|pane: &RecentPane| #[trigger] keep.requires((pane,)),
            forall|pane: &RecentPane, yes: bool| #[trigger]
                keep.ensures((pane,), yes) ==> yes == wanted(pane@),
            pane_views(kept@) == views.take(i as int).filter(wanted),
        decreases panes.len() - i,
    {
        let pane = &panes[i];
        let ghost before = pane_views(kept@);
        if keep(pane) {
            kept.push(pane.clone());
            assert(pane_views(kept@) =~= before.push(pane@));
        }
        proof {
            assert(views.take(i + 1) =~= views.take(i as int).push(pane@));
            views.take(i as int).lemma_filter_push(pane@, wanted);
        }
        i = i + 1;
    }
    assert(views.take(i as int) =~= views);
    kept
}

/// One entry for each pane, found by its identity.
#[derive(Debug)]
pub struct PaneTable {
    panes: Vec<RecentPane>,
}

impl Clone for PaneTable {
    fn clone(&self) -> (copy: Self)
        ensures
            copy@ == self@,
    {
        proof {
            use_type_invariant(self);
        }
        let mut panes: Vec<RecentPane> = Vec::new();
        let mut i: usize = 0;
        while i < self.panes.len()
            invariant
                i <= self.panes.len(),
                panes@ == self.panes@.take(i as int),
            decreases self.panes.len() - i,
        {
            panes.push(self.panes[i].clone());
            assert(panes@ =~= self.panes@.take(i + 1));
            i = i + 1;
        }
        assert(panes@ =~= self.panes@);
        PaneTable { panes }
    }
}

impl View for PaneTable {
    type V = Map<PaneKey, PaneView>;

    closed spec fn view(&self) -> Map<PaneKey, PaneView> {
        table_of(pane_views(self.panes@))
    }
}

impl PaneTable {
    #[verifier::type_invariant]
    spec fn one_entry_per_pane(self) -> bool {
        distinct_keys(pane_views(self.panes@))
    }

    pub fn new() -> (table: PaneTable)
        ensures
            table@ == Map::<PaneKey, PaneView>::empty(),
    {
        let panes: Vec<RecentPane> = Vec::new();
        assert(pane_views(panes@) =~= Seq::empty());
        PaneTable { panes }
    }

    fn position(panes: &Vec<RecentPane>, session_id: &str, pane_id: &str) -> (found: Option<usize>)
        ensures
            match found {
                Some(at) => at < panes@.len() && panes@[at as int]@.key() == (session_id@, pane_id@),
                None => forall|i: int|
                    0 <= i < panes@.len() ==> (#[trigger] panes@[i])@.key() != (
                        session_id@,
                        pane_id@,
                    ),
            },
    {
        let mut at: usize = 0;
        while at < panes.len()
            invariant
                at <= panes.len(),
                forall|i: int|
                    0 <= i < at ==> (#[trigger] panes@[i])@.key() != (session_id@, pane_id@),
            decreases panes.len() - at,
        {
            if same_text(panes[at].session_id.as_str(), session_id) && same_text(
                panes[at].pane_id.as_str(),
                pane_id,
            ) {
                return Some(at);
            }
            at = at + 1;
        }
        None
    }

    /// Whether the table has an entry for a pane.
    pub fn contains(&self, session_id: &str, pane_id: &str) -> (yes: bool)
        ensures
            yes == self@.contains_key((session_id@, pane_id@)),
    {
        proof {
            use_type_invariant(self);
            lemma_distinct_panes_list_their_table(pane_views(self.panes@));
        }
        let found = PaneTable::position(&self.panes, session_id, pane_id);
        proof {
            let views = pane_views(self.panes@);
            match found {
                Some(at) => {
                    assert(views[at as int].key() == (session_id@, pane_id@));
                },
                None => {
                    if self@.contains_key((session_id@, pane_id@)) {
                        let i = choose|i: int|
                            0 <= i < views.len() && (#[trigger] views[i]).key() == (
                                session_id@,
                                pane_id@,
                            );
                        assert(self.panes@[i]@.key() == (session_id@, pane_id@));
                    }
                },
            }
        }
        found.is_some()
    }

    /// Enters a pane in place of any entry with the same identity.
    pub fn insert(&mut self, pane: RecentPane)
        ensures
            final(self)@ == old(self)@.insert(pane@.key(), pane@),
    {
        proof {
            use_type_invariant(&*self);
            assert(pane_views(Seq::<RecentPane>::empty()) =~= Seq::empty());
        }
        let mut panes: Vec<RecentPane> = Vec::new();
        std::mem::swap(&mut panes, &mut self.panes);
        let ghost before = pane_views(panes@);
        let ghost view = pane@;
        proof {
            lemma_distinct_panes_list_their_table(before);
        }
        match PaneTable::position(&panes, pane.session_id.as_str(), pane.pane_id.as_str()) {
            Some(at) => {
                assert(before[at as int].key() == view.key());
                panes.set(at, pane);
                proof {
                    let after = pane_views(panes@);
                    assert(after =~= before.update(at as int, view));
                    assert(distinct_keys(after));
                    lemma_distinct_panes_list_their_table(after);
                    let expected = table_of(before).insert(view.key(), view);
                    assert(lists(after, expected)) by {
                        assert forall|i: int| 0 <= i < after.len() implies expected.contains_key(
                            (#[trigger] after[i]).key(),
                        ) && expected[after[i].key()] == after[i] by {
                            if i != at {
                                assert(after[i] == before[i]);
                                assert(before[i].key() != before[at as int].key());
                            }
                        }
                        assert forall|key: PaneKey| #[trigger]
                            expected.contains_key(key) implies exists|i: int|
                            0 <= i < after.len() && (#[trigger] after[i]).key() == key by {
                            if key == view.key() {
                                assert(after[at as int].key() == key);
                            } else {
                                assert(table_of(before).contains_key(key));
                                let i = choose|i: int|
                                    0 <= i < before.len() && (#[trigger] before[i]).key() == key;
                                assert(after[i].key() == key);
                            }
                        }
                    }
                    lemma_listed_table_is_unique(after, table_of(after), expected);
                }
            },
            None => {
                panes.push(pane);
                proof {
                    let after = pane_views(panes@);
                    assert(after =~= before.push(view));
                    assert(after.drop_last() =~= before);
                    assert forall|i: int, j: int| 0 <= i < j < after.len() implies (
                    #[trigger] after[i]).key() != (#[trigger] after[j]).key() by {
                        if j < before.len() {
                            assert(before[i].key() != before[j].key());
                        } else {
                            assert(panes@[i]@ == after[i]);
                        }
                    }
                }
            },
        }
        self.panes = panes;
    }

    /// Removes the entry of a pane, if there is one.
    pub fn remove(&mut self, session_id: &str, pane_id: &str)
        ensures
            final(self)@ == old(self)@.remove((session_id@, pane_id@)),
    {
        proof {
            use_type_invariant(&*self);
            assert(pane_views(Seq::<RecentPane>::empty()) =~= Seq::empty());
        }
        let mut panes: Vec<RecentPane> = Vec::new();
        std::mem::swap(&mut panes, &mut self.panes);
        let ghost before = pane_views(panes@);
        let ghost key = (session_id@, pane_id@);
        let ghost expected = table_of(before).remove(key);
        proof {
            lemma_distinct_panes_list_their_table(before);
        }
        match PaneTable::position(&panes, session_id, pane_id) {
            Some(at) => {
                assert(before[at as int].key() == key);
                panes.remove(at);
                proof {
                    let after = pane_views(panes@);
                    assert(after =~= before.remove(at as int));
                    assert forall|i: int, j: int| 0 <= i < j < after.len() implies (
                    #[trigger] after[i]).key() != (#[trigger] after[j]).key() by {
                        let from = |k: int| if k < at {
                            k
                        } else {
                            k + 1
                        };
                        assert(after[i] == before[from(i)] && after[j] == before[from(j)]);
                    }
                    lemma_distinct_panes_list_their_table(after);
                    assert(lists(after, expected)) by {
                        assert forall|i: int| 0 <= i < after.len() implies expected.contains_key(
                            (#[trigger] after[i]).key(),
                        ) && expected[after[i].key()] == after[i] by {
                            let from = if i < at {
                                i
                            } else {
                                i + 1
                            };
                            assert(after[i] == before[from]);
                            assert(before[from].key() != before[at as int].key());
                        }
                        assert forall|other: PaneKey| #[trigger]
                            expected.contains_key(other) implies exists|i: int|
                            0 <= i < after.len() && (#[trigger] after[i]).key() == other by {
                            let i = choose|i: int|
                                0 <= i < before.len() && (#[trigger] before[i]).key() == other;
                            assert(i != at);
                            let to = if i < at {
                                i
                            } else {
                                i - 1
                            };
                            assert(after[to] == before[i]);
                        }
                    }
                    lemma_listed_table_is_unique(after, table_of(after), expected);
                }
            },
            None => {
                proof {
                    if table_of(before).contains_key(key) {
                        let i = choose|i: int|
                            0 <= i < before.len() && (#[trigger] before[i]).key() == key;
                        assert(panes@[i]@.key() == key);
                    }
                    assert(expected =~= table_of(before));
                }
            },
        }
        self.panes = panes;
    }

    /// The entries, in no particular order.
    pub fn values(&self) -> (panes: &Vec<RecentPane>)
        ensures
            lists(pane_views(panes@), self@),
    {
        proof {
            use_type_invariant(self);
            lemma_distinct_panes_list_their_table(pane_views(self.panes@));
        }
        &self.panes
    }

    /// The entries of one session, in the order of panes.
    pub fn of_session(&self, session_id: &str) -> (panes: Vec<RecentPane>)
        ensures
            lists_in_order(pane_views(panes@), session_entries(self@, session_id@)),
            pane_views(panes@) == ordered_list(session_entries(self@, session_id@)),
    {
        let ghost wanted = |pane: PaneView| pane.session_id == session_id@;
        let all = self.values();
        let keep = |pane: &RecentPane| -> (yes: bool)
            ensures
                yes == (pane@.session_id == session_id@),
        {
            same_text(pane.session_id.as_str(), session_id)
        };
        let kept = select(all, keep, Ghost(wanted));
        proof {
            lemma_filter_lists(pane_views(all@), self@, wanted);
        }
        let ghost kept_panes = kept@;
        let sorted = stable_sort(kept);
        proof {
            let entries = session_entries(self@, session_id@);
            lemma_sorted_lists(sorted@, kept_panes, entries);
            assert forall|key: PaneKey| #[trigger] entries.contains_key(key) implies key.0
                == session_id@ by {
                let views = pane_views(all@);
                let i = choose|i: int| 0 <= i < views.len() && (#[trigger] views[i]).key() == key;
                assert(self@[views[i].key()] == views[i]);
            }
            lemma_session_list_is_unique(
                pane_views(sorted@),
                ordered_list(entries),
                entries,
                session_id@,
            );
        }
        sorted
    }

    /// The entries observed at `now` or at most `ttl` nanoseconds before, in the order of panes.
    pub fn observed_within(&self, now: Timestamp, ttl: u64) -> (panes: Vec<RecentPane>)
        ensures
            lists_in_order(
                pane_views(panes@),
                entries_where(
                    self@,
                    |pane: PaneView| pane.observed_at <= now.nanos <= pane.observed_at + ttl,
                ),
            ),
    {
        let ghost wanted = |pane: PaneView|
            pane.observed_at <= now.nanos <= pane.observed_at + ttl;
        let all = self.values();
        let keep = |pane: &RecentPane| -> (yes: bool)
            ensures
                yes == (pane@.observed_at <= now.nanos <= pane@.observed_at + ttl),
        {
            is_within(pane.observed_at, now, ttl)
        };
        let kept = select(all, keep, Ghost(wanted));
        proof {
            lemma_filter_lists(pane_views(all@), self@, wanted);
        }
        let ghost kept_panes = kept@;
        let sorted = stable_sort(kept);
        proof {
            lemma_sorted_lists(sorted@, kept_panes, entries_where(self@, wanted));
        }
        sorted
    }
}

/// Whether `at` is `now` or at most `ttl` nanoseconds before.
pub fn is_within(at: Timestamp, now: Timestamp, ttl: u64) -> (yes: bool)
    ensures
        yes == (at.nanos <= now.nanos <= at.nanos + ttl),
{
    at.nanos <= now.nanos && (now.nanos < i128::MIN + ttl as i128 || at.nanos >= now.nanos
        - ttl as i128)
}

} // verus!
