//! The choice of a branch to switch to: how often each branch name occurs in
//! the selection, most frequent first, and which target a choice stands for.
use crate::command::{copy_texts, Fault, HgError};
use crate::repo::names_outcome;
use crate::stable::{
    lemma_sort_keeps_elements, lemma_sort_keeps_no_duplicates, lemma_sorted_is_ordered,
    lemma_sorted_len, modeled, sorted, stable_sort, strict_weak,
};
use crate::text::{
    lemma_text_lt_asymmetric, lemma_text_lt_connected, lemma_text_lt_negatively_transitive,
    precedes, same_text, text_lt,
};
use vstd::prelude::*;

verus! {

/// A branch name and the number of times it is listed.
#[derive(Debug, PartialEq, Eq)]
pub struct BranchCount {
    pub name: String,
    pub count: usize,
}

/// The model of a [`BranchCount`].
pub struct BranchCountView {
    pub name: Seq<char>,
    pub count: nat,
}

impl View for BranchCount {
    type V = BranchCountView;

    open spec fn view(&self) -> BranchCountView {
        BranchCountView { name: self.name@, count: self.count as nat }
    }
}

/// How often `name` occurs in `names`.
pub open spec fn occurrences(names: Seq<Seq<char>>, name: Seq<char>) -> nat
    decreases names.len(),
{
    if names.len() == 0 {
        0
    } else {
        occurrences(names.drop_last(), name) + if names.last() == name {
            1nat
        } else {
            0nat
        }
    }
}

/// The models of the listings `listings`.
pub open spec fn listings_of(listings: Seq<Result<Vec<String>, HgError>>) -> Seq<
    Result<Seq<Seq<char>>, Fault>,
> {
    listings.map_values(|l: Result<Vec<String>, HgError>| names_outcome(l))
}

/// The branch names of all listings that succeeded, one listing after the other.
pub open spec fn listed_names(listings: Seq<Result<Seq<Seq<char>>, Fault>>) -> Seq<Seq<char>>
    decreases listings.len(),
{
    if listings.len() == 0 {
        Seq::<Seq<char>>::empty()
    } else {
        listed_names(listings.drop_last()) + match listings.last() {
            Ok(names) => names,
            Err(_) => Seq::<Seq<char>>::empty(),
        }
    }
}

/// Whether an entry of `t` has the name `name`.
pub open spec fn has_name(t: Seq<BranchCountView>, name: Seq<char>) -> bool {
    exists|i: int| 0 <= i < t.len() && #[trigger] t[i].name == name
}

/// The table `t` after one more occurrence of `name`: its entry counts one
/// more, or a new entry for it is added at the end.
pub open spec fn bumped(t: Seq<BranchCountView>, name: Seq<char>) -> Seq<BranchCountView> {
    if has_name(t, name) {
        t.map_values(
            |e: BranchCountView|
                if e.name == name {
                    BranchCountView { name: e.name, count: e.count + 1 }
                } else {
                    e
                },
        )
    } else {
        t.push(BranchCountView { name, count: 1 })
    }
}

/// The names of `names`, each once, in the order of their first occurrence,
/// each with the number of its occurrences.
pub open spec fn counted(names: Seq<Seq<char>>) -> Seq<BranchCountView>
    decreases names.len(),
{
    if names.len() == 0 {
        Seq::<BranchCountView>::empty()
    } else {
        bumped(counted(names.drop_last()), names.last())
    }
}

/// Whether `a` is listed in front of `b`: the more frequent first, and of two
/// equally frequent the one whose name sorts first.
pub open spec fn ranks_before(a: BranchCountView, b: BranchCountView) -> bool {
    a.count > b.count || (a.count == b.count && text_lt(a.name, b.name))
}

/// The order of the list of branches, as a relation.
pub open spec fn frequency_rank() -> spec_fn(BranchCountView, BranchCountView) -> bool {
    |a: BranchCountView, b: BranchCountView| ranks_before(a, b)
}

/// The list of branches offered for `names`: each name with the number of its
/// occurrences, the more frequent first, equally frequent ones by name.
pub open spec fn tallied(names: Seq<Seq<char>>) -> Seq<BranchCountView> {
    sorted(counted(names), frequency_rank())
}

/// Whether `t` lists exactly the names that occur in `names`, each with the
/// number of its occurrences, in the order of the list of branches.
pub open spec fn is_tally(t: Seq<BranchCountView>, names: Seq<Seq<char>>) -> bool {
    &&& forall|i: int|
        0 <= i < t.len() ==> (#[trigger] t[i]).count == occurrences(names, t[i].name) && t[i].count
            > 0
    &&& forall|name: Seq<char>| occurrences(names, name) > 0 ==> has_name(t, name)
    &&& forall|i: int, j: int| 0 <= i < j < t.len() ==> ranks_before(#[trigger] t[i], #[trigger] t[j])
}

/// No name occurs more often than there are names.
pub proof fn lemma_occurrences_bound(names: Seq<Seq<char>>, name: Seq<char>)
    ensures
        occurrences(names, name) <= names.len(),
    decreases names.len(),
{
    if names.len() > 0 {
        lemma_occurrences_bound(names.drop_last(), name);
    }
}

/// The table of counts names each name once, with the number of its
/// occurrences, and leaves out no name that occurs.
pub proof fn lemma_counted(names: Seq<Seq<char>>)
    ensures
        forall|i: int, j: int|
            0 <= i < j < counted(names).len() ==> (#[trigger] counted(names)[i]).name != (
            #[trigger] counted(names)[j]).name,
        forall|i: int|
            0 <= i < counted(names).len() ==> (#[trigger] counted(names)[i]).count == occurrences(
                names,
                counted(names)[i].name,
            ) && counted(names)[i].count > 0,
        forall|name: Seq<char>| occurrences(names, name) > 0 ==> has_name(counted(names), name),
    decreases names.len(),
{
    if names.len() > 0 {
        let front = names.drop_last();
        let last = names.last();
        let t = counted(front);
        let r = counted(names);
        lemma_counted(front);
        if has_name(t, last) {
            assert forall|i: int| 0 <= i < r.len() implies (#[trigger] r[i]).name == t[i].name by {}
            assert forall|i: int, j: int| 0 <= i < j < r.len() implies (#[trigger] r[i]).name != (
            #[trigger] r[j]).name by {
                assert(t[i].name != t[j].name);
            }
            assert forall|i: int| 0 <= i < r.len() implies (#[trigger] r[i]).count == occurrences(
                names,
                r[i].name,
            ) && r[i].count > 0 by {
                assert(t[i].count == occurrences(front, t[i].name));
            }
            assert forall|name: Seq<char>| occurrences(names, name) > 0 implies has_name(
                r,
                name,
            ) by {
                if name == last {
                    let i = choose|i: int| 0 <= i < t.len() && #[trigger] t[i].name == last;
                    assert(r[i].name == name);
                } else {
                    assert(has_name(t, name));
                    let i = choose|i: int| 0 <= i < t.len() && #[trigger] t[i].name == name;
                    assert(r[i].name == name);
                }
            }
        } else {
            assert(occurrences(front, last) == 0);
            assert forall|i: int, j: int| 0 <= i < j < r.len() implies (#[trigger] r[i]).name != (
            #[trigger] r[j]).name by {
                if j < t.len() {
                    assert(t[i].name != t[j].name);
                } else {
                    assert(t[i].name != last);
                }
            }
            assert forall|i: int| 0 <= i < r.len() implies (#[trigger] r[i]).count == occurrences(
                names,
                r[i].name,
            ) && r[i].count > 0 by {
                if i < t.len() {
                    assert(t[i].count == occurrences(front, t[i].name));
                    assert(t[i].name != last);
                }
            }
            assert forall|name: Seq<char>| occurrences(names, name) > 0 implies has_name(
                r,
                name,
            ) by {
                if name == last {
                    assert(r[r.len() - 1].name == name);
                } else {
                    assert(has_name(t, name));
                    let i = choose|i: int| 0 <= i < t.len() && #[trigger] t[i].name == name;
                    assert(r[i].name == name);
                }
            }
        }
    }
}

/// The order of the list of branches is a strict weak order.
pub proof fn lemma_frequency_rank_is_strict_weak()
    ensures
        strict_weak(frequency_rank()),
{
    let lt = frequency_rank();
    assert forall|a: BranchCountView, b: BranchCountView| #[trigger] lt(a, b) implies !lt(
        b,
        a,
    ) by {
        if a.count == b.count {
            lemma_text_lt_asymmetric(a.name, b.name);
        }
    }
    assert forall|a: BranchCountView, b: BranchCountView, c: BranchCountView|
        !#[trigger] lt(a, b) && !#[trigger] lt(b, c) implies !lt(a, c) by {
        if a.count == b.count && b.count == c.count {
            lemma_text_lt_negatively_transitive(a.name, b.name, c.name);
        }
    }
}

/// The list of branches names exactly the names that occur, each once and
/// with the number of its occurrences, and every entry ranks before those
/// behind it.
pub proof fn lemma_tallied_is_tally(names: Seq<Seq<char>>)
    ensures
        is_tally(tallied(names), names),
{
    let lt = frequency_rank();
    let c = counted(names);
    let t = tallied(names);
    lemma_counted(names);
    lemma_frequency_rank_is_strict_weak();
    lemma_sorted_is_ordered(c, lt);
    lemma_sorted_len(c, lt);
    assert(c.no_duplicates()) by {
        assert forall|i: int, j: int| 0 <= i < c.len() && 0 <= j < c.len() && i != j implies c[i]
            != c[j] by {
            if i < j {
                assert(c[i].name != c[j].name);
            } else {
                assert(c[j].name != c[i].name);
            }
        }
    }
    lemma_sort_keeps_no_duplicates(c, lt);
    assert forall|i: int| 0 <= i < t.len() implies (#[trigger] t[i]).count == occurrences(
        names,
        t[i].name,
    ) && t[i].count > 0 by {
        lemma_sort_keeps_elements(c, lt, t[i]);
        assert(t.contains(t[i]));
        let k = choose|k: int| 0 <= k < c.len() && c[k] == t[i];
        assert(c[k].count == occurrences(names, c[k].name));
    }
    assert forall|name: Seq<char>| occurrences(names, name) > 0 implies has_name(t, name) by {
        assert(has_name(c, name));
        let k = choose|k: int| 0 <= k < c.len() && #[trigger] c[k].name == name;
        lemma_sort_keeps_elements(c, lt, c[k]);
        assert(c.contains(c[k]));
        let i = choose|i: int| 0 <= i < t.len() && t[i] == c[k];
        assert(t[i].name == name);
    }
    assert forall|i: int, j: int| 0 <= i < j < t.len() implies ranks_before(
        #[trigger] t[i],
        #[trigger] t[j],
    ) by {
        assert(!lt(t[j], t[i]));
        assert(t[i] != t[j]);
        lemma_sort_keeps_elements(c, lt, t[i]);
        lemma_sort_keeps_elements(c, lt, t[j]);
        assert(t.contains(t[i]) && t.contains(t[j]));
        let a = choose|a: int| 0 <= a < c.len() && c[a] == t[i];
        let b = choose|b: int| 0 <= b < c.len() && c[b] == t[j];
        if a < b {
            assert(c[a].name != c[b].name);
        } else if b < a {
            assert(c[b].name != c[a].name);
        }
        if t[i].count == t[j].count {
            lemma_text_lt_connected(t[i].name, t[j].name);
        }
    }
}

/// Whether `a` is listed in front of `b`.
fn ranks_first(a: &BranchCount, b: &BranchCount) -> (r: bool)
    ensures
        r == ranks_before(a@, b@),
{
    a.count > b.count || (a.count == b.count && precedes(a.name.as_str(), b.name.as_str()))
}

/// The index of the entry of `table` for `name`.
fn entry_of(table: &Vec<BranchCount>, name: &str) -> (found: Option<usize>)
    ensures
        match found {
            Some(i) => i < table.len() && modeled(table@)[i as int].name == name@,
            None => !has_name(modeled(table@), name@),
        },
{
    let mut i: usize = 0;
    while i < table.len()
        invariant
            i <= table.len(),
            forall|k: int| 0 <= k < i ==> (#[trigger] modeled(table@)[k]).name != name@,
        decreases table.len() - i,
    {
        if same_text(table[i].name.as_str(), name) {
            return Some(i);
        }
        i += 1;
    }
    None
}

/// The branch names of all listings that succeeded, one listing after the other.
fn names_listed(listings: &[Result<Vec<String>, HgError>]) -> (names: Vec<String>)
    ensures
        names.deep_view() == listed_names(listings_of(listings@)),
{
    let mut names: Vec<String> = Vec::new();
    let mut i: usize = 0;
    let ghost all = listings_of(listings@);
    assert(all.take(0) =~= Seq::<Result<Seq<Seq<char>>, Fault>>::empty());
    assert(names.deep_view() =~= Seq::<Seq<char>>::empty());
    while i < listings.len()
        invariant
            i <= listings.len(),
            all == listings_of(listings@),
            names.deep_view() == listed_names(all.take(i as int)),
        decreases listings.len() - i,
    {
        let ghost so_far = names.deep_view();
        assert(all.take(i + 1).drop_last() =~= all.take(i as int));
        assert(all.take(i + 1).last() == names_outcome(listings@[i as int]));
        match &listings[i] {
            Ok(list) => {
                let mut more = copy_texts(list.as_slice());
                let ghost added = more.deep_view();
                names.append(&mut more);
                assert(names.deep_view() =~= so_far + added);
            },
            Err(_) => {
                assert(so_far + Seq::<Seq<char>>::empty() =~= so_far);
            },
        }
        i += 1;
    }
    assert(all.take(i as int) =~= all);
    names
}

/// The branches to offer for a switch, from the branch listing of each
/// selected repository: every name with the number of times it is listed,
/// the most frequent first, equally frequent ones by name. A listing that
/// failed counts for nothing.
pub fn tally_branches(listings: &[Result<Vec<String>, HgError>]) -> (tally: Vec<BranchCount>)
    ensures
        modeled(tally@) == tallied(listed_names(listings_of(listings@))),
        is_tally(modeled(tally@), listed_names(listings_of(listings@))),
{
    let names = names_listed(listings);
    let ghost all = names.deep_view();
    let mut table: Vec<BranchCount> = Vec::new();
    let mut k: usize = 0;
    assert(all.take(0) =~= Seq::<Seq<char>>::empty());
    assert(modeled(table@) =~= Seq::<BranchCountView>::empty());
    while k < names.len()
        invariant
            k <= names.len(),
            all == names.deep_view(),
            modeled(table@) == counted(all.take(k as int)),
        decreases names.len() - k,
    {
        let ghost t = modeled(table@);
        let ghost name = all[k as int];
        proof {
            assert(all.take(k + 1).drop_last() =~= all.take(k as int));
            assert(all.take(k + 1).last() == name);
            assert(name == names[k as int]@);
            lemma_counted(all.take(k as int));
        }
        match entry_of(&table, names[k].as_str()) {
            Some(i) => {
                proof {
                    lemma_occurrences_bound(all.take(k as int), name);
                    assert(t[i as int].count == occurrences(all.take(k as int), t[i as int].name));
                }
                let entry = BranchCount { name: table[i].name.clone(), count: table[i].count + 1 };
                table.set(i, entry);
                proof {
                    assert(t[i as int].name == name);
                    assert forall|j: int| 0 <= j < t.len() implies modeled(table@)[j] == bumped(
                        t,
                        name,
                    )[j] by {
                        if j < i {
                            assert(t[j].name != t[i as int].name);
                        } else if j > i {
                            assert(t[i as int].name != t[j].name);
                        }
                    }
                    assert(modeled(table@) =~= bumped(t, name));
                }
            },
            None => {
                table.push(BranchCount { name: names[k].clone(), count: 1 });
                assert(modeled(table@) =~= bumped(t, name));
            },
        }
        k += 1;
    }
    assert(all.take(k as int) =~= all);
    let less = |a: &BranchCount, b: &BranchCount| -> (r: bool)
        ensures
            r == ranks_before(a@, b@),
        { ranks_first(a, b) };
    stable_sort(&mut table, less, Ghost(frequency_rank()));
    proof {
        lemma_tallied_is_tally(all);
    }
    table
}

/// The names of `tally`, in order.
pub fn branch_names(tally: &[BranchCount]) -> (names: Vec<String>)
    ensures
        names.deep_view() == modeled(tally@).map_values(|e: BranchCountView| e.name),
{
    let mut names: Vec<String> = Vec::new();
    let mut i: usize = 0;
    let ghost all = modeled(tally@).map_values(|e: BranchCountView| e.name);
    assert(names.deep_view() =~= all.take(0));
    while i < tally.len()
        invariant
            i <= tally.len(),
            all == modeled(tally@).map_values(|e: BranchCountView| e.name),
            names.deep_view() == all.take(i as int),
        decreases tally.len() - i,
    {
        let ghost so_far = names.deep_view();
        names.push(tally[i].name.clone());
        assert(names.deep_view() =~= so_far.push(tally[i as int].name@));
        assert(all[i as int] == tally[i as int].name@);
        assert(so_far.push(tally[i as int].name@) =~= all.take(i + 1));
        i += 1;
    }
    assert(all.take(i as int) =~= all);
    names
}

/// The branch that a choice stands for: what was typed, if anything was, else
/// the name at `chosen`, if that is a row of `names`. Empty text is no target.
pub open spec fn target_of(typed: Seq<char>, chosen: int, names: Seq<Seq<char>>) -> Option<
    Seq<char>,
> {
    if typed.len() > 0 {
        Some(typed)
    } else if 0 <= chosen < names.len() && names[chosen].len() > 0 {
        Some(names[chosen])
    } else {
        None
    }
}

/// The branch to switch to, from the text typed and the row chosen in the
/// list of `names`, where a negative row means that none is chosen.
pub fn switch_target(typed: &str, chosen: i32, names: &[String]) -> (target: Option<String>)
    ensures
        match target {
            Some(t) => target_of(typed@, chosen as int, names.deep_view()) == Some(t@),
            None => target_of(typed@, chosen as int, names.deep_view()) is None,
        },
{
    if !typed.is_empty() {
        return Some(typed.to_owned());
    }
    if chosen >= 0 {
        let row: usize = chosen as usize;
        if row < names.len() {
            assert(names.deep_view()[row as int] == names[row as int]@);
            if !names[row].as_str().is_empty() {
                return Some(names[row].clone());
            }
        }
    }
    None
}

} // verus!
