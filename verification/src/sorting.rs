//! Stable sorting of records by a column, and the state of the column headers.
use crate::repo::{distinct_paths, has_path, views, RecordView, Repository};
use crate::stable::{
    lemma_slot, lemma_sort_keeps_elements, modeled, ordered, same_rank, slot, sorted, stable_sort,
    strict_weak,
};
use crate::text::{
    lemma_text_lt_asymmetric, lemma_text_lt_negatively_transitive, precedes, text_lt,
};
use vstd::prelude::*;
use vstd::string::StringExecFns;

verus! {

/// The direction of a sort.
#[derive(Clone, Copy, Debug, PartialEq, Eq, Structural)]
pub enum SortOrder {
    Ascending,
    Descending,
    /// No column is chosen: records are ordered by path, ascending.
    Unordered,
}

/// The column that orders the list, and the direction.
#[derive(Clone, Copy, Debug, PartialEq, Eq, Structural)]
pub struct SortState {
    pub column: usize,
    pub order: SortOrder,
}

/// The order that follows `order` when a column header is chosen again.
pub open spec fn next_order(order: SortOrder) -> SortOrder {
    match order {
        SortOrder::Unordered => SortOrder::Ascending,
        SortOrder::Ascending => SortOrder::Descending,
        SortOrder::Descending => SortOrder::Unordered,
    }
}

/// The state after the header of `column` is chosen: the same column moves on
/// to its next order, another column starts ascending.
pub open spec fn toggled(state: SortState, column: usize) -> SortState {
    if state.column == column {
        SortState { column, order: next_order(state.order) }
    } else {
        SortState { column, order: SortOrder::Ascending }
    }
}

/// The label of the header of `column`, whose name is `name`: the name, and
/// behind it, on the sorted column, an arrow that points up for ascending and
/// down for descending.
pub open spec fn header_text(state: SortState, column: usize, name: Seq<char>) -> Seq<char> {
    if column == state.column && state.order == SortOrder::Ascending {
        name + " \u{25b2}"@
    } else if column == state.column && state.order == SortOrder::Descending {
        name + " \u{25bc}"@
    } else {
        name
    }
}

impl SortState {
    /// The state before any header was chosen.
    pub fn new() -> (state: SortState)
        ensures
            state == (SortState { column: 0, order: SortOrder::Unordered }),
    {
        SortState { column: 0, order: SortOrder::Unordered }
    }

    /// The label of the header of `column`, whose name is `name`.
    pub fn header_label(&self, column: usize, name: &str) -> (label: String)
        ensures
            label@ == header_text(*self, column, name@),
    {
        if column == self.column {
            match self.order {
                SortOrder::Ascending => name.to_owned().concat(" \u{25b2}"),
                SortOrder::Descending => name.to_owned().concat(" \u{25bc}"),
                SortOrder::Unordered => name.to_owned(),
            }
        } else {
            name.to_owned()
        }
    }

    /// Records that the header of `column` was chosen.
    pub fn toggle(&mut self, column: usize)
        ensures
            *final(self) == toggled(*old(self), column),
    {
        if self.column == column {
            self.order = match self.order {
                SortOrder::Unordered => SortOrder::Ascending,
                SortOrder::Ascending => SortOrder::Descending,
                SortOrder::Descending => SortOrder::Unordered,
            };
        } else {
            self.column = column;
            self.order = SortOrder::Ascending;
        }
    }
}

/// Choosing the header of the sorted column goes from ascending to descending
/// to unordered and back to ascending: three times in a row restores the state.
pub proof fn lemma_toggle_cycles(state: SortState)
    ensures
        state.order == SortOrder::Ascending ==> toggled(state, state.column).order
            == SortOrder::Descending,
        state.order == SortOrder::Descending ==> toggled(state, state.column).order
            == SortOrder::Unordered,
        state.order == SortOrder::Unordered ==> toggled(state, state.column).order
            == SortOrder::Ascending,
        toggled(state, state.column).column == state.column,
        toggled(toggled(toggled(state, state.column), state.column), state.column) == state,
{
}

/// Whether `a` is smaller than `b` in the natural order of `column`: text by
/// code point for path, branch, revision, phase and status; clean before
/// modified. Beyond the last column nothing is smaller than anything.
pub open spec fn column_lt(column: usize, a: RecordView, b: RecordView) -> bool {
    if column == 0 {
        text_lt(a.path, b.path)
    } else if column == 1 {
        text_lt(a.current_branch, b.current_branch)
    } else if column == 2 {
        text_lt(a.revision, b.revision)
    } else if column == 3 {
        !a.modified && b.modified
    } else if column == 4 {
        text_lt(a.commit_type, b.commit_type)
    } else if column == 5 {
        text_lt(a.last_status, b.last_status)
    } else {
        false
    }
}

/// Whether a sort by `column` in `order` must put `a` in front of `b`.
pub open spec fn before(column: usize, order: SortOrder, a: RecordView, b: RecordView) -> bool {
    match order {
        SortOrder::Unordered => text_lt(a.path, b.path),
        SortOrder::Ascending => column_lt(column, a, b),
        SortOrder::Descending => column_lt(column, b, a),
    }
}

/// The order of a sort by `column` in `order`, as a relation.
pub open spec fn rank(column: usize, order: SortOrder) -> spec_fn(RecordView, RecordView) -> bool {
    |a: RecordView, b: RecordView| before(column, order, a, b)
}

/// `s` sorted by `column` in `order`, records of the same rank in the order
/// they had.
pub open spec fn sorted_by(s: Seq<RecordView>, column: usize, order: SortOrder) -> Seq<RecordView> {
    sorted(s, rank(column, order))
}

proof fn lemma_column_lt_asymmetric(column: usize, a: RecordView, b: RecordView)
    requires
        column_lt(column, a, b),
    ensures
        !column_lt(column, b, a),
{
    if column == 0 {
        lemma_text_lt_asymmetric(a.path, b.path);
    } else if column == 1 {
        lemma_text_lt_asymmetric(a.current_branch, b.current_branch);
    } else if column == 2 {
        lemma_text_lt_asymmetric(a.revision, b.revision);
    } else if column == 4 {
        lemma_text_lt_asymmetric(a.commit_type, b.commit_type);
    } else if column == 5 {
        lemma_text_lt_asymmetric(a.last_status, b.last_status);
    }
}

proof fn lemma_column_lt_negatively_transitive(
    column: usize,
    a: RecordView,
    b: RecordView,
    c: RecordView,
)
    requires
        !column_lt(column, a, b),
        !column_lt(column, b, c),
    ensures
        !column_lt(column, a, c),
{
    if column == 0 {
        lemma_text_lt_negatively_transitive(a.path, b.path, c.path);
    } else if column == 1 {
        lemma_text_lt_negatively_transitive(a.current_branch, b.current_branch, c.current_branch);
    } else if column == 2 {
        lemma_text_lt_negatively_transitive(a.revision, b.revision, c.revision);
    } else if column == 4 {
        lemma_text_lt_negatively_transitive(a.commit_type, b.commit_type, c.commit_type);
    } else if column == 5 {
        lemma_text_lt_negatively_transitive(a.last_status, b.last_status, c.last_status);
    }
}

/// A record that must precede another need not follow it.
pub proof fn lemma_before_asymmetric(column: usize, order: SortOrder, a: RecordView, b: RecordView)
    requires
        before(column, order, a, b),
    ensures
        !before(column, order, b, a),
{
    match order {
        SortOrder::Unordered => lemma_text_lt_asymmetric(a.path, b.path),
        SortOrder::Ascending => lemma_column_lt_asymmetric(column, a, b),
        SortOrder::Descending => lemma_column_lt_asymmetric(column, b, a),
    }
}

/// If `a` need not precede `b`, nor `b` precede `c`, then `a` need not precede `c`.
pub proof fn lemma_before_negatively_transitive(
    column: usize,
    order: SortOrder,
    a: RecordView,
    b: RecordView,
    c: RecordView,
)
    requires
        !before(column, order, a, b),
        !before(column, order, b, c),
    ensures
        !before(column, order, a, c),
{
    match order {
        SortOrder::Unordered => lemma_text_lt_negatively_transitive(a.path, b.path, c.path),
        SortOrder::Ascending => lemma_column_lt_negatively_transitive(column, a, b, c),
        SortOrder::Descending => lemma_column_lt_negatively_transitive(column, c, b, a),
    }
}

/// The order of every column, in every direction, is a strict weak order.
pub proof fn lemma_rank_is_strict_weak(column: usize, order: SortOrder)
    ensures
        strict_weak(rank(column, order)),
{
    let lt = rank(column, order);
    assert forall|a: RecordView, b: RecordView| #[trigger] lt(a, b) implies !lt(b, a) by {
        lemma_before_asymmetric(column, order, a, b);
    }
    assert forall|a: RecordView, b: RecordView, c: RecordView|
        !#[trigger] lt(a, b) && !#[trigger] lt(b, c) implies !lt(a, c) by {
        lemma_before_negatively_transitive(column, order, a, b, c);
    }
}

/// The result of a sort is ordered: no record stands behind one that it must precede.
pub proof fn lemma_sorted_is_ordered(s: Seq<RecordView>, column: usize, order: SortOrder)
    ensures
        ordered(sorted_by(s, column, order), rank(column, order)),
{
    lemma_rank_is_strict_weak(column, order);
    crate::stable::lemma_sorted_is_ordered(s, rank(column, order));
}

/// Sorting twice by the same column and order gives what sorting once gives.
pub proof fn lemma_sort_idempotent(s: Seq<RecordView>, column: usize, order: SortOrder)
    ensures
        sorted_by(sorted_by(s, column, order), column, order) == sorted_by(s, column, order),
{
    lemma_rank_is_strict_weak(column, order);
    crate::stable::lemma_sort_idempotent(s, rank(column, order));
}

/// Sorting rearranges: the result holds the same records, each as often.
pub proof fn lemma_sort_permutes(s: Seq<RecordView>, column: usize, order: SortOrder)
    ensures
        sorted_by(s, column, order).to_multiset() == s.to_multiset(),
{
    crate::stable::lemma_sort_permutes(s, rank(column, order));
}

/// Sorting is stable: the records that the sort need not tell from `x` stand
/// in the result in the order in which they stood before.
pub proof fn lemma_sort_stable(s: Seq<RecordView>, column: usize, order: SortOrder, x: RecordView)
    ensures
        sorted_by(s, column, order).filter(|y: RecordView| same_rank(rank(column, order), x, y))
            == s.filter(|y: RecordView| same_rank(rank(column, order), x, y)),
{
    lemma_rank_is_strict_weak(column, order);
    crate::stable::lemma_sort_stable(s, rank(column, order), x);
}

/// Sorting neither adds a path nor drops one.
pub proof fn lemma_sort_keeps_paths(
    s: Seq<RecordView>,
    column: usize,
    order: SortOrder,
    path: Seq<char>,
)
    ensures
        has_path(sorted_by(s, column, order), path) == has_path(s, path),
{
    let r = sorted_by(s, column, order);
    if has_path(s, path) {
        let i = choose|i: int| 0 <= i < s.len() && #[trigger] s[i].path == path;
        lemma_sort_keeps_elements(s, rank(column, order), s[i]);
        assert(s.contains(s[i]));
        let k = choose|k: int| 0 <= k < r.len() && r[k] == s[i];
        assert(r[k].path == path);
    }
    if has_path(r, path) {
        let k = choose|k: int| 0 <= k < r.len() && #[trigger] r[k].path == path;
        lemma_sort_keeps_elements(s, rank(column, order), r[k]);
        assert(r.contains(r[k]));
        let i = choose|i: int| 0 <= i < s.len() && s[i] == r[k];
        assert(s[i].path == path);
    }
}

/// Sorting a list without a repeated path gives one without a repeated path.
pub proof fn lemma_sort_keeps_distinct(s: Seq<RecordView>, column: usize, order: SortOrder)
    requires
        distinct_paths(s),
    ensures
        distinct_paths(sorted_by(s, column, order)),
    decreases s.len(),
{
    let lt = rank(column, order);
    if s.len() > 0 {
        let front = s.drop_last();
        let last = s.last();
        let t = sorted(front, lt);
        let p = slot(t, last, lt);
        let r = t.insert(p, last);
        assert forall|i: int, j: int| 0 <= i < j < front.len() implies #[trigger] front[i].path
            != #[trigger] front[j].path by {
            assert(front[i] == s[i] && front[j] == s[j]);
        }
        lemma_sort_keeps_distinct(front, column, order);
        lemma_sort_keeps_paths(front, column, order, last.path);
        lemma_slot(t, last, lt);
        if has_path(front, last.path) {
            let i = choose|i: int| 0 <= i < front.len() && #[trigger] front[i].path == last.path;
            assert(s[i].path == s[s.len() - 1].path);
        }
        assert forall|i: int, j: int| 0 <= i < j < r.len() implies #[trigger] r[i].path
            != #[trigger] r[j].path by {
            let a = if i < p {
                i
            } else {
                i - 1
            };
            let b = if j < p {
                j
            } else {
                j - 1
            };
            if i == p {
                assert(r[j] == t[b]);
                assert(t[b].path != last.path);
            } else if j == p {
                assert(r[i] == t[a]);
                assert(t[a].path != last.path);
            } else {
                assert(r[i] == t[a] && r[j] == t[b]);
            }
        }
    }
}

/// Whether `a` is smaller than `b` in the natural order of `column`.
fn column_before(column: usize, a: &Repository, b: &Repository) -> (r: bool)
    ensures
        r == column_lt(column, a@, b@),
{
    if column == 0 {
        precedes(a.path.as_str(), b.path.as_str())
    } else if column == 1 {
        precedes(a.current_branch.as_str(), b.current_branch.as_str())
    } else if column == 2 {
        precedes(a.revision.as_str(), b.revision.as_str())
    } else if column == 3 {
        !a.modified && b.modified
    } else if column == 4 {
        precedes(a.commit_type.as_str(), b.commit_type.as_str())
    } else if column == 5 {
        precedes(a.last_status.as_str(), b.last_status.as_str())
    } else {
        false
    }
}

/// Whether a sort by `column` in `order` must put `a` in front of `b`.
pub fn comes_before(column: usize, order: SortOrder, a: &Repository, b: &Repository) -> (r: bool)
    ensures
        r == before(column, order, a@, b@),
{
    match order {
        SortOrder::Unordered => precedes(a.path.as_str(), b.path.as_str()),
        SortOrder::Ascending => column_before(column, a, b),
        SortOrder::Descending => column_before(column, b, a),
    }
}

/// Sorts `repos` by the column and order of `state`, stably.
pub fn sort_repos(repos: &mut Vec<Repository>, state: &SortState)
    ensures
        views(final(repos)@) == sorted_by(views(old(repos)@), state.column, state.order),
{
    let column = state.column;
    let order = state.order;
    assert(modeled(repos@) =~= views(repos@));
    let less = |a: &Repository, b: &Repository| -> (r: bool)
        ensures
            r == before(column, order, a@, b@),
        { comes_before(column, order, a, b) };
    stable_sort(repos, less, Ghost(rank(column, order)));
    assert(modeled(repos@) =~= views(repos@));
}

} // verus!
