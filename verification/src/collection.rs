//! The working set: the one list of tracked repositories, and the merges that
//! bring scan results, finished operations and status messages into it.
//!
//! No two records of a [`Collection`] share a path, whatever is merged in.
use crate::dispatch::{Notification, NotificationView};
use crate::repo::{distinct_paths, has_path, unrefreshed, views, RecordView, Repository};
use crate::sorting::{
    lemma_sort_idempotent, lemma_sort_keeps_distinct, lemma_sort_keeps_paths, sort_repos,
    sorted_by, SortOrder, SortState,
};
use crate::text::{decimal, decimal_text, same_text};
use vstd::prelude::*;
use vstd::string::StringExecFns;

verus! {

/// `base` followed by those records of `found`, in order, whose path was not
/// there before them.
pub open spec fn absorbed(base: Seq<RecordView>, found: Seq<RecordView>) -> Seq<RecordView>
    decreases found.len(),
{
    if found.len() == 0 {
        base
    } else {
        let so_far = absorbed(base, found.drop_last());
        if has_path(so_far, found.last().path) {
            so_far
        } else {
            so_far.push(found.last())
        }
    }
}

/// The list after the records `found` by a scan were merged in: the new paths
/// are added and the whole is ordered by path.
pub open spec fn discovered(base: Seq<RecordView>, found: Seq<RecordView>) -> Seq<RecordView> {
    sorted_by(absorbed(base, found), 0, SortOrder::Unordered)
}

/// The list after each of `batches` was merged in, one after the other.
pub open spec fn after_scans(base: Seq<RecordView>, batches: Seq<Seq<RecordView>>) -> Seq<
    RecordView,
>
    decreases batches.len(),
{
    if batches.len() == 0 {
        base
    } else {
        discovered(after_scans(base, batches.drop_last()), batches.last())
    }
}

/// What replaces `current` when `incoming` arrives for the same path: all of
/// `incoming`, but for an empty status message, which leaves the current one.
pub open spec fn merged(current: RecordView, incoming: RecordView) -> RecordView {
    RecordView {
        path: incoming.path,
        current_branch: incoming.current_branch,
        revision: incoming.revision,
        modified: incoming.modified,
        commit_type: incoming.commit_type,
        last_status: if incoming.last_status.len() == 0 {
            current.last_status
        } else {
            incoming.last_status
        },
    }
}

/// The list after `incoming` replaced the record of its path.
pub open spec fn updated(s: Seq<RecordView>, incoming: RecordView) -> Seq<RecordView> {
    s.map_values(
        |r: RecordView|
            if r.path == incoming.path {
                merged(r, incoming)
            } else {
                r
            },
    )
}

/// `r` with the status message `text`.
pub open spec fn with_status(r: RecordView, text: Seq<char>) -> RecordView {
    RecordView {
        path: r.path,
        current_branch: r.current_branch,
        revision: r.revision,
        modified: r.modified,
        commit_type: r.commit_type,
        last_status: text,
    }
}

/// The list after the record of `path` got the status message `text`.
pub open spec fn patched(s: Seq<RecordView>, path: Seq<char>, text: Seq<char>) -> Seq<RecordView> {
    s.map_values(
        |r: RecordView|
            if r.path == path {
                with_status(r, text)
            } else {
                r
            },
    )
}

/// The list without the records whose path is among `paths`.
pub open spec fn without(s: Seq<RecordView>, paths: Seq<Seq<char>>) -> Seq<RecordView> {
    s.filter(|r: RecordView| !paths.contains(r.path))
}

/// The records of the rows `lines`, which count from one, in the order of
/// `lines`; a line that is no row gives none.
pub open spec fn selected_rows(lines: Seq<i32>, s: Seq<RecordView>) -> Seq<RecordView>
    decreases lines.len(),
{
    if lines.len() == 0 {
        Seq::<RecordView>::empty()
    } else {
        let rest = selected_rows(lines.drop_last(), s);
        let line = lines.last();
        if 0 < line <= s.len() {
            rest.push(s[line - 1])
        } else {
            rest
        }
    }
}

/// The paths of `s`, in order.
pub open spec fn paths_of(s: Seq<RecordView>) -> Seq<Seq<char>> {
    s.map_values(|r: RecordView| r.path)
}

/// The list after the message `note` was merged in. A status line for the
/// whole application leaves the list alone.
pub open spec fn applied(s: Seq<RecordView>, note: NotificationView) -> Seq<RecordView> {
    match note {
        NotificationView::ScanComplete(found) => discovered(s, found),
        NotificationView::RepoUpdated(incoming) => updated(s, incoming),
        NotificationView::SetStatus(path, text) => patched(s, path, text),
        NotificationView::SetGlobalStatus(_) => s,
    }
}

/// The status line after a scan that left `count` records in the list.
pub open spec fn found_text(count: nat) -> Seq<char> {
    "Found "@ + decimal_text(count) + " repositories"@
}

/// What is left to do after the message `note` was merged into `s`. A scan
/// result is stored, shown, and counted in the status line; a record or a
/// status message is shown; a status line is put up.
pub open spec fn effect_of(s: Seq<RecordView>, note: NotificationView) -> EffectView {
    match note {
        NotificationView::ScanComplete(found) => EffectView {
            persist: true,
            redraw: true,
            status: Some(found_text(discovered(s, found).len())),
        },
        NotificationView::RepoUpdated(_) => EffectView { persist: false, redraw: true, status: None },
        NotificationView::SetStatus(_, _) => EffectView {
            persist: false,
            redraw: true,
            status: None,
        },
        NotificationView::SetGlobalStatus(text) => EffectView {
            persist: false,
            redraw: false,
            status: Some(text),
        },
    }
}

/// Absorbing into a list without a repeated path gives one without a repeated path.
pub proof fn lemma_absorbed_distinct(base: Seq<RecordView>, found: Seq<RecordView>)
    requires
        distinct_paths(base),
    ensures
        distinct_paths(absorbed(base, found)),
    decreases found.len(),
{
    if found.len() > 0 {
        lemma_absorbed_distinct(base, found.drop_last());
    }
}

/// After absorbing, every path of `base` and of `found` is there.
pub proof fn lemma_absorbed_paths(base: Seq<RecordView>, found: Seq<RecordView>, path: Seq<char>)
    ensures
        has_path(absorbed(base, found), path) == (has_path(base, path) || has_path(found, path)),
    decreases found.len(),
{
    if found.len() > 0 {
        let front = found.drop_last();
        let so_far = absorbed(base, front);
        let r = absorbed(base, found);
        lemma_absorbed_paths(base, front, path);
        if has_path(found, path) {
            let i = choose|i: int| 0 <= i < found.len() && #[trigger] found[i].path == path;
            if i < front.len() {
                assert(front[i].path == path);
            }
        }
        if has_path(front, path) {
            let i = choose|i: int| 0 <= i < front.len() && #[trigger] front[i].path == path;
            assert(found[i].path == path);
        }
        if has_path(so_far, found.last().path) {
        } else {
            if has_path(so_far, path) {
                let i = choose|i: int| 0 <= i < so_far.len() && #[trigger] so_far[i].path == path;
                assert(r[i].path == path);
            }
            if has_path(r, path) {
                let i = choose|i: int| 0 <= i < r.len() && #[trigger] r[i].path == path;
                if i < so_far.len() {
                    assert(so_far[i].path == path);
                } else {
                    assert(found[found.len() - 1].path == path);
                }
            }
            if found.last().path == path {
                assert(r[r.len() - 1].path == path);
            }
        }
        if found.last().path == path {
            assert(found[found.len() - 1].path == path);
        }
    }
}

/// Absorbing records whose paths are all there changes nothing.
pub proof fn lemma_absorbed_known(base: Seq<RecordView>, found: Seq<RecordView>)
    requires
        forall|i: int| 0 <= i < found.len() ==> has_path(base, #[trigger] found[i].path),
    ensures
        absorbed(base, found) == base,
    decreases found.len(),
{
    if found.len() > 0 {
        let front = found.drop_last();
        assert forall|i: int| 0 <= i < front.len() implies has_path(
            base,
            #[trigger] front[i].path,
        ) by {
            assert(front[i] == found[i]);
        }
        lemma_absorbed_known(base, front);
        assert(has_path(base, found[found.len() - 1].path));
    }
}

/// Merging scan results never brings in a path twice.
pub proof fn lemma_discovered_distinct(base: Seq<RecordView>, found: Seq<RecordView>)
    requires
        distinct_paths(base),
    ensures
        distinct_paths(discovered(base, found)),
{
    lemma_absorbed_distinct(base, found);
    lemma_sort_keeps_distinct(absorbed(base, found), 0, SortOrder::Unordered);
}

/// However many scan results are merged in, one after the other, and whatever
/// paths they repeat, no two records of the list share a path.
pub proof fn lemma_scans_keep_paths_distinct(base: Seq<RecordView>, batches: Seq<Seq<RecordView>>)
    requires
        distinct_paths(base),
    ensures
        distinct_paths(after_scans(base, batches)),
    decreases batches.len(),
{
    if batches.len() > 0 {
        lemma_scans_keep_paths_distinct(base, batches.drop_last());
        lemma_discovered_distinct(after_scans(base, batches.drop_last()), batches.last());
    }
}

/// Merging the same scan result a second time changes nothing.
pub proof fn lemma_discovered_again(base: Seq<RecordView>, found: Seq<RecordView>)
    ensures
        discovered(discovered(base, found), found) == discovered(base, found),
{
    let once = discovered(base, found);
    assert forall|i: int| 0 <= i < found.len() implies has_path(once, #[trigger] found[i].path) by {
        lemma_absorbed_paths(base, found, found[i].path);
        lemma_sort_keeps_paths(absorbed(base, found), 0, SortOrder::Unordered, found[i].path);
    }
    lemma_absorbed_known(once, found);
    lemma_sort_idempotent(absorbed(base, found), 0, SortOrder::Unordered);
}

/// An update for a path that is not in the list changes nothing.
pub proof fn lemma_update_of_absent(s: Seq<RecordView>, incoming: RecordView)
    requires
        !has_path(s, incoming.path),
    ensures
        updated(s, incoming) == s,
{
    assert forall|i: int| 0 <= i < s.len() implies updated(s, incoming)[i] == s[i] by {
        assert(s[i].path != incoming.path);
    }
    assert(updated(s, incoming) =~= s);
}

/// An update replaces the record of its path in its place, keeps the status
/// message that was there if it brings none and overwrites it otherwise, and
/// leaves every other record alone.
pub proof fn lemma_update_of_present(s: Seq<RecordView>, incoming: RecordView, i: int)
    requires
        0 <= i < s.len(),
    ensures
        updated(s, incoming).len() == s.len(),
        s[i].path != incoming.path ==> updated(s, incoming)[i] == s[i],
        s[i].path == incoming.path ==> updated(s, incoming)[i].path == incoming.path
            && updated(s, incoming)[i].current_branch == incoming.current_branch && updated(
            s,
            incoming,
        )[i].revision == incoming.revision && updated(s, incoming)[i].modified == incoming.modified
            && updated(s, incoming)[i].commit_type == incoming.commit_type,
        s[i].path == incoming.path && incoming.last_status.len() == 0 ==> updated(
            s,
            incoming,
        )[i].last_status == s[i].last_status,
        s[i].path == incoming.path && incoming.last_status.len() > 0 ==> updated(
            s,
            incoming,
        )[i].last_status == incoming.last_status,
{
}

/// The outcomes of operations on two different repositories may arrive in
/// either order: the list ends the same.
pub proof fn lemma_updates_commute(s: Seq<RecordView>, a: RecordView, b: RecordView)
    requires
        a.path != b.path,
    ensures
        updated(updated(s, a), b) == updated(updated(s, b), a),
{
    assert(updated(updated(s, a), b) =~= updated(updated(s, b), a));
}

/// Once the outcome of an operation arrives with a status message of its own,
/// nothing is left of the message that said the operation had begun.
pub proof fn lemma_update_covers_patch(s: Seq<RecordView>, incoming: RecordView, text: Seq<char>)
    requires
        incoming.last_status.len() > 0,
    ensures
        updated(patched(s, incoming.path, text), incoming) == updated(s, incoming),
{
    assert(updated(patched(s, incoming.path, text), incoming) =~= updated(s, incoming));
}

/// After a removal no record has a path that was to be removed.
pub proof fn lemma_removed_is_absent(s: Seq<RecordView>, paths: Seq<Seq<char>>, path: Seq<char>)
    requires
        paths.contains(path),
    ensures
        !has_path(without(s, paths), path),
{
    let keep = |r: RecordView| !paths.contains(r.path);
    let rest = s.filter(keep);
    if has_path(rest, path) {
        let i = choose|i: int| 0 <= i < rest.len() && #[trigger] rest[i].path == path;
        s.lemma_filter_pred(keep, i);
    }
}

/// The outcome of an operation on a repository that was removed while the
/// operation ran changes nothing when it arrives.
pub proof fn lemma_update_after_removal(
    s: Seq<RecordView>,
    paths: Seq<Seq<char>>,
    incoming: RecordView,
)
    requires
        paths.contains(incoming.path),
    ensures
        updated(without(s, paths), incoming) == without(s, paths),
{
    lemma_removed_is_absent(s, paths, incoming.path);
    lemma_update_of_absent(without(s, paths), incoming);
}

/// What the owner of the collection has to do after it merged a message.
#[derive(Debug, PartialEq, Eq)]
pub struct Effect {
    /// Whether the configuration is to be stored again.
    pub persist: bool,
    /// Whether the list is to be shown again.
    pub redraw: bool,
    /// The new status line of the application, if it changes.
    pub status: Option<String>,
}

/// The model of an [`Effect`].
pub struct EffectView {
    pub persist: bool,
    pub redraw: bool,
    pub status: Option<Seq<char>>,
}

impl View for Effect {
    type V = EffectView;

    open spec fn view(&self) -> EffectView {
        EffectView {
            persist: self.persist,
            redraw: self.redraw,
            status: match self.status {
                Some(text) => Some(text@),
                None => None,
            },
        }
    }
}

/// The list of tracked repositories. No two of its records share a path.
pub struct Collection {
    records: Vec<Repository>,
}

impl View for Collection {
    type V = Seq<RecordView>;

    closed spec fn view(&self) -> Seq<RecordView> {
        views(self.records@)
    }
}

/// The index of the first record of `records` with the path `path`.
fn position(records: &Vec<Repository>, path: &str) -> (found: Option<usize>)
    ensures
        match found {
            Some(i) => i < records.len() && views(records@)[i as int].path == path@,
            None => !has_path(views(records@), path@),
        },
{
    let mut i: usize = 0;
    while i < records.len()
        invariant
            i <= records.len(),
            forall|k: int| 0 <= k < i ==> #[trigger] views(records@)[k].path != path@,
        decreases records.len() - i,
    {
        if same_text(records[i].path.as_str(), path) {
            return Some(i);
        }
        i += 1;
    }
    None
}

/// Whether `path` is among `paths`.
fn listed(paths: &Vec<String>, path: &str) -> (found: bool)
    ensures
        found == paths.deep_view().contains(path@),
{
    let mut i: usize = 0;
    while i < paths.len()
        invariant
            i <= paths.len(),
            forall|k: int| 0 <= k < i ==> #[trigger] paths.deep_view()[k] != path@,
        decreases paths.len() - i,
    {
        if same_text(paths[i].as_str(), path) {
            assert(paths.deep_view()[i as int] == path@);
            return true;
        }
        i += 1;
    }
    false
}

impl Collection {
    #[verifier::type_invariant]
    spec fn paths_are_distinct(&self) -> bool {
        distinct_paths(views(self.records@))
    }

    /// An empty collection.
    pub fn new() -> (c: Collection)
        ensures
            c@ == Seq::<RecordView>::empty(),
    {
        let c = Collection { records: Vec::new() };
        assert(c@ =~= Seq::<RecordView>::empty());
        c
    }

    /// A collection of records not refreshed yet, one for each of `paths` in
    /// order; a path that occurs again is passed over.
    pub fn tracking(paths: &Vec<String>) -> (c: Collection)
        ensures
            c@ == absorbed(
                Seq::<RecordView>::empty(),
                paths.deep_view().map_values(|p: Seq<char>| unrefreshed(p)),
            ),
            distinct_paths(c@),
    {
        let mut items: Vec<Repository> = Vec::new();
        let ghost all = paths.deep_view().map_values(|p: Seq<char>| unrefreshed(p));
        let mut i: usize = 0;
        assert(views(items@) =~= Seq::<RecordView>::empty());
        assert(all.take(0) =~= Seq::<RecordView>::empty());
        while i < paths.len()
            invariant
                i <= paths.len(),
                all == paths.deep_view().map_values(|p: Seq<char>| unrefreshed(p)),
                views(items@) == absorbed(Seq::<RecordView>::empty(), all.take(i as int)),
            decreases paths.len() - i,
        {
            let ghost so_far = views(items@);
            assert(all.take(i + 1).drop_last() =~= all.take(i as int));
            assert(all.take(i + 1).last() == unrefreshed(paths[i as int]@));
            if position(&items, paths[i].as_str()).is_none() {
                items.push(Repository::new(paths[i].clone()));
                assert(views(items@) =~= so_far.push(unrefreshed(paths[i as int]@)));
            }
            i += 1;
        }
        proof {
            assert(all.take(i as int) =~= all);
            lemma_absorbed_distinct(Seq::<RecordView>::empty(), all);
        }
        Collection { records: items }
    }

    /// The number of records.
    pub fn len(&self) -> (n: usize)
        ensures
            n == self@.len(),
    {
        self.records.len()
    }

    /// The records, in order.
    pub fn records(&self) -> (records: &Vec<Repository>)
        ensures
            views(records@) == self@,
            distinct_paths(self@),
    {
        proof {
            use_type_invariant(self);
        }
        &self.records
    }

    /// The paths of the records, in order.
    pub fn paths(&self) -> (paths: Vec<String>)
        ensures
            paths.deep_view() == paths_of(self@),
    {
        let mut paths: Vec<String> = Vec::new();
        let mut i: usize = 0;
        while i < self.records.len()
            invariant
                i <= self.records.len(),
                paths.deep_view() == paths_of(self@).take(i as int),
            decreases self.records.len() - i,
        {
            let ghost so_far = paths.deep_view();
            paths.push(self.records[i].path.clone());
            assert(paths.deep_view() =~= so_far.push(self.records[i as int].path@));
            assert(paths_of(self@)[i as int] == self.records[i as int].path@);
            assert(so_far.push(self.records[i as int].path@) =~= paths_of(self@).take(i + 1));
            i += 1;
        }
        assert(paths_of(self@).take(i as int) =~= paths_of(self@));
        paths
    }

    /// Whether a record has the path `path`.
    pub fn contains(&self, path: &str) -> (found: bool)
        ensures
            found == has_path(self@, path@),
    {
        position(&self.records, path).is_some()
    }

    /// Merges the records that a scan found: those whose path is new are
    /// added, in the order found, and the list is then ordered by path.
    pub fn insert_discovered(&mut self, found: Vec<Repository>)
        ensures
            final(self)@ == discovered(old(self)@, views(found@)),
            distinct_paths(final(self)@),
    {
        proof {
            use_type_invariant(&*self);
        }
        let mut items: Vec<Repository> = Vec::new();
        std::mem::swap(&mut self.records, &mut items);
        let ghost base = views(items@);
        let ghost all = views(found@);
        assert(all.take(0) =~= Seq::<RecordView>::empty());
        for r in it: found
            invariant
                all == views(it.seq()),
                views(items@) == absorbed(base, all.take(it.index() as int)),
        {
            let ghost so_far = views(items@);
            assert(all.take(it.index() + 1).drop_last() =~= all.take(it.index() as int));
            assert(all.take(it.index() + 1).last() == r@);
            if position(&items, r.path.as_str()).is_none() {
                items.push(r);
                assert(views(items@) =~= so_far.push(r@));
            }
        }
        assert(all.take(all.len() as int) =~= all);
        sort_repos(&mut items, &SortState { column: 0, order: SortOrder::Unordered });
        proof {
            lemma_discovered_distinct(base, all);
        }
        self.records = items;
    }

    /// Merges the outcome of an operation: `incoming` replaces the record of
    /// its path, except that an empty status message leaves the one that was
    /// there. If no record has the path, nothing changes. Tells whether a
    /// record was replaced.
    pub fn apply_update(&mut self, incoming: Repository) -> (replaced: bool)
        ensures
            final(self)@ == updated(old(self)@, incoming@),
            replaced == has_path(old(self)@, incoming@.path),
            !replaced ==> final(self)@ == old(self)@,
            distinct_paths(final(self)@),
    {
        proof {
            use_type_invariant(&*self);
            if !has_path(self@, incoming@.path) {
                lemma_update_of_absent(self@, incoming@);
            }
        }
        match position(&self.records, incoming.path.as_str()) {
            None => false,
            Some(i) => {
                let mut items: Vec<Repository> = Vec::new();
                std::mem::swap(&mut self.records, &mut items);
                let ghost before = views(items@);
                let ghost arrived = incoming@;
                let mut record = incoming;
                if record.last_status.as_str().is_empty() {
                    record.last_status = items[i].last_status.clone();
                }
                items.set(i, record);
                proof {
                    assert(before[i as int].path == arrived.path);
                    assert forall|k: int| 0 <= k < before.len() implies views(items@)[k] == updated(
                        before,
                        arrived,
                    )[k] by {
                        if k != i {
                            assert(before[k].path != before[i as int].path);
                        }
                    }
                    assert(views(items@) =~= updated(before, arrived));
                    assert forall|a: int, b: int| 0 <= a < b < before.len() implies #[trigger] views(
                        items@,
                    )[a].path != #[trigger] views(items@)[b].path by {
                        assert(views(items@)[a].path == before[a].path);
                        assert(views(items@)[b].path == before[b].path);
                    }
                }
                self.records = items;
                true
            },
        }
    }

    /// Sets the status message of the record of `path` and leaves the rest of
    /// it alone. If no record has the path, nothing changes. Tells whether a
    /// record was changed.
    pub fn apply_status_patch(&mut self, path: &str, text: String) -> (changed: bool)
        ensures
            final(self)@ == patched(old(self)@, path@, text@),
            changed == has_path(old(self)@, path@),
            !changed ==> final(self)@ == old(self)@,
            distinct_paths(final(self)@),
    {
        proof {
            use_type_invariant(&*self);
        }
        match position(&self.records, path) {
            None => {
                proof {
                    assert forall|k: int| 0 <= k < self@.len() implies patched(self@, path@, text@)[k]
                        == self@[k] by {
                        assert(self@[k].path != path@);
                    }
                    assert(patched(self@, path@, text@) =~= self@);
                }
                false
            },
            Some(i) => {
                let mut items: Vec<Repository> = Vec::new();
                std::mem::swap(&mut self.records, &mut items);
                let ghost before = views(items@);
                let mut record = items[i].clone();
                record.last_status = text;
                items.set(i, record);
                proof {
                    assert(before[i as int].path == path@);
                    assert forall|k: int| 0 <= k < before.len() implies views(items@)[k] == patched(
                        before,
                        path@,
                        text@,
                    )[k] by {
                        if k != i {
                            assert(before[k].path != before[i as int].path);
                        }
                    }
                    assert(views(items@) =~= patched(before, path@, text@));
                    assert forall|a: int, b: int| 0 <= a < b < before.len() implies #[trigger] views(
                        items@,
                    )[a].path != #[trigger] views(items@)[b].path by {
                        assert(views(items@)[a].path == before[a].path);
                        assert(views(items@)[b].path == before[b].path);
                    }
                }
                self.records = items;
                true
            },
        }
    }

    /// Drops the records whose path is among `paths`. Tells whether the list
    /// became shorter.
    pub fn remove(&mut self, paths: &Vec<String>) -> (shrank: bool)
        ensures
            final(self)@ == without(old(self)@, paths.deep_view()),
            shrank == (final(self)@.len() < old(self)@.len()),
            final(self)@.len() <= old(self)@.len(),
            distinct_paths(final(self)@),
    {
        proof {
            use_type_invariant(&*self);
        }
        let mut items: Vec<Repository> = Vec::new();
        std::mem::swap(&mut self.records, &mut items);
        let count = items.len();
        let ghost all = views(items@);
        let ghost listed_paths = paths.deep_view();
        let ghost keep = |r: RecordView| !listed_paths.contains(r.path);
        let mut kept: Vec<Repository> = Vec::new();
        proof {
            reveal(Seq::filter);
            assert(all.take(0) =~= Seq::<RecordView>::empty());
            assert(views(kept@) =~= all.take(0).filter(keep));
        }
        for r in it: items
            invariant
                all == views(it.seq()),
                distinct_paths(all),
                listed_paths == paths.deep_view(),
                keep == (|r: RecordView| !listed_paths.contains(r.path)),
                views(kept@) == all.take(it.index() as int).filter(keep),
                kept.len() <= it.index(),
                distinct_paths(views(kept@)),
                forall|k: int|
                    0 <= k < kept.len() ==> has_path(
                        all.take(it.index() as int),
                        #[trigger] views(kept@)[k].path,
                    ),
        {
            let ghost so_far = views(kept@);
            let ghost seen = all.take(it.index() as int);
            let ghost next = all.take(it.index() + 1);
            proof {
                reveal(Seq::filter);
                assert(next.drop_last() =~= seen);
                assert(next.last() == r@);
                assert forall|k: int| 0 <= k < so_far.len() implies has_path(
                    next,
                    #[trigger] so_far[k].path,
                ) by {
                    let j = choose|j: int| 0 <= j < seen.len() && #[trigger] seen[j].path
                        == so_far[k].path;
                    assert(next[j].path == so_far[k].path);
                }
            }
            if !listed(paths, r.path.as_str()) {
                proof {
                    assert forall|k: int| 0 <= k < so_far.len() implies #[trigger] so_far[k].path
                        != r@.path by {
                        let j = choose|j: int| 0 <= j < seen.len() && #[trigger] seen[j].path
                            == so_far[k].path;
                        assert(all[j].path != all[it.index() as int].path);
                    }
                }
                kept.push(r);
                proof {
                    assert(views(kept@) =~= so_far.push(r@));
                    assert(next[it.index() as int].path == r@.path);
                }
            }
        }
        assert(all.take(all.len() as int) =~= all);
        let shrank = kept.len() < count;
        self.records = kept;
        shrank
    }

    /// Merges the message `note` into the collection and tells what is left
    /// to do for it.
    pub fn apply(&mut self, note: Notification) -> (effect: Effect)
        ensures
            final(self)@ == applied(old(self)@, note@),
            effect@ == effect_of(old(self)@, note@),
            distinct_paths(final(self)@),
    {
        proof {
            use_type_invariant(&*self);
        }
        match note {
            Notification::ScanComplete(found) => {
                self.insert_discovered(found);
                let count = decimal(self.len());
                let text = "Found ".to_owned().concat(count.as_str()).concat(" repositories");
                Effect { persist: true, redraw: true, status: Some(text) }
            },
            Notification::RepoUpdated(incoming) => {
                self.apply_update(incoming);
                Effect { persist: false, redraw: true, status: None }
            },
            Notification::SetStatus(path, text) => {
                self.apply_status_patch(path.as_str(), text);
                Effect { persist: false, redraw: true, status: None }
            },
            Notification::SetGlobalStatus(text) => Effect {
                persist: false,
                redraw: false,
                status: Some(text),
            },
        }
    }

    /// Orders the records by `column` in `order`, stably. Without an order the
    /// records are ordered by path, whatever the column.
    pub fn sort(&mut self, column: usize, order: SortOrder)
        ensures
            final(self)@ == sorted_by(old(self)@, column, order),
            distinct_paths(final(self)@),
    {
        proof {
            use_type_invariant(&*self);
        }
        let mut items: Vec<Repository> = Vec::new();
        std::mem::swap(&mut self.records, &mut items);
        let ghost before = views(items@);
        sort_repos(&mut items, &SortState { column, order });
        proof {
            lemma_sort_keeps_distinct(before, column, order);
        }
        self.records = items;
    }
}

/// The records of the rows `lines`, which count from one, in the order of
/// `lines`; a line that is no row gives none.
pub fn get_selected_repos(lines: &[i32], repos: &[Repository]) -> (selected: Vec<Repository>)
    ensures
        views(selected@) == selected_rows(lines@, views(repos@)),
{
    let mut selected: Vec<Repository> = Vec::new();
    let mut i: usize = 0;
    assert(lines@.take(0) =~= Seq::<i32>::empty());
    assert(views(selected@) =~= Seq::<RecordView>::empty());
    while i < lines.len()
        invariant
            i <= lines.len(),
            views(selected@) == selected_rows(lines@.take(i as int), views(repos@)),
        decreases lines.len() - i,
    {
        let ghost so_far = views(selected@);
        assert(lines@.take(i + 1).drop_last() =~= lines@.take(i as int));
        assert(lines@.take(i + 1).last() == lines@[i as int]);
        let line = lines[i];
        if line > 0 {
            let row: usize = (line - 1) as usize;
            if row < repos.len() {
                selected.push(repos[row].clone());
                assert(views(selected@) =~= so_far.push(views(repos@)[row as int]));
            }
        }
        i += 1;
    }
    assert(lines@.take(i as int) =~= lines@);
    selected
}

} // verus!
