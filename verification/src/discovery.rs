//! Discovery: which entries of a directory walk are repositories, and the
//! course of a scan over several roots.
//!
//! The walk itself is the caller's. A [`Scan`] tells it which root to walk
//! next, takes the entries it met, and in the end names the paths to refresh.
use crate::command::{asks, outcomes, Reply, Step};
use crate::dispatch::{notices, Notification, NotificationView};
use crate::repo::{refresh_query, refreshed, unrefreshed, views, Repository};
use crate::text::{decimal, decimal_text, same_text, starts_with};
use vstd::prelude::*;
use vstd::string::StringExecFns;

verus! {

/// What a walk tells of one entry that it met.
#[derive(Debug, PartialEq, Eq)]
pub struct WalkEntry {
    /// The last segment of the entry's path.
    pub file_name: String,
    /// Whether the entry is a directory.
    pub is_dir: bool,
    /// The path of the directory that holds the entry, if there is one.
    pub parent: Option<String>,
}

/// The model of a [`WalkEntry`].
pub struct WalkEntryView {
    pub file_name: Seq<char>,
    pub is_dir: bool,
    pub parent: Option<Seq<char>>,
}

impl View for WalkEntry {
    type V = WalkEntryView;

    open spec fn view(&self) -> WalkEntryView {
        WalkEntryView {
            file_name: self.file_name@,
            is_dir: self.is_dir,
            parent: match self.parent {
                Some(p) => Some(p@),
                None => None,
            },
        }
    }
}

/// The models of a list of entries.
pub open spec fn entries_of(list: Seq<WalkEntry>) -> Seq<WalkEntryView> {
    list.map_values(|e: WalkEntry| e@)
}

/// The path of the repository that `entry` marks: its parent, if the entry is
/// a directory named `.hg`.
pub open spec fn repository_at(entry: WalkEntryView) -> Option<Seq<char>> {
    if entry.is_dir && entry.file_name == ".hg"@ {
        entry.parent
    } else {
        None
    }
}

/// The paths of the repositories that `entries` mark, in the order met. A
/// path that is marked twice is there twice.
pub open spec fn found_in(entries: Seq<WalkEntryView>) -> Seq<Seq<char>>
    decreases entries.len(),
{
    if entries.len() == 0 {
        Seq::<Seq<char>>::empty()
    } else {
        let before = found_in(entries.drop_last());
        match repository_at(entries.last()) {
            Some(path) => before.push(path),
            None => before,
        }
    }
}

/// The status line while the root `root` is walked.
pub open spec fn walking_text(root: Seq<char>) -> Seq<char> {
    "Walking "@ + root + "..."@
}

/// The status line while `count` repositories are refreshed.
pub open spec fn analyzing_text(count: nat) -> Seq<char> {
    "Analyzing "@ + decimal_text(count) + " repositories..."@
}

/// The path of the repository that `entry` marks, if it marks one.
pub fn repository_of(entry: &WalkEntry) -> (path: Option<String>)
    ensures
        match path {
            Some(p) => repository_at(entry@) == Some(p@),
            None => repository_at(entry@) is None,
        },
{
    if entry.is_dir && same_text(entry.file_name.as_str(), ".hg") {
        match &entry.parent {
            Some(parent) => Some(parent.clone()),
            None => None,
        }
    } else {
        None
    }
}

/// The paths of the repositories that `entries` mark, in the order met.
pub fn found_repositories(entries: &[WalkEntry]) -> (paths: Vec<String>)
    ensures
        paths.deep_view() == found_in(entries_of(entries@)),
{
    let mut paths: Vec<String> = Vec::new();
    let mut i: usize = 0;
    let ghost all = entries_of(entries@);
    assert(all.take(0) =~= Seq::<WalkEntryView>::empty());
    assert(paths.deep_view() =~= Seq::<Seq<char>>::empty());
    while i < entries.len()
        invariant
            i <= entries.len(),
            all == entries_of(entries@),
            paths.deep_view() == found_in(all.take(i as int)),
        decreases entries.len() - i,
    {
        let ghost so_far = paths.deep_view();
        assert(all.take(i + 1).drop_last() =~= all.take(i as int));
        assert(all.take(i + 1).last() == entries[i as int]@);
        match repository_of(&entries[i]) {
            Some(path) => {
                paths.push(path);
                assert(paths.deep_view() =~= so_far.push(path@));
            },
            None => {},
        }
        i += 1;
    }
    assert(all.take(i as int) =~= all);
    paths
}

/// The roots named on a command line: every argument behind the first that
/// does not begin with a hyphen.
pub open spec fn roots_in(args: Seq<Seq<char>>) -> Seq<Seq<char>>
    decreases args.len(),
{
    if args.len() <= 1 {
        Seq::<Seq<char>>::empty()
    } else {
        let before = roots_in(args.drop_last());
        if "-"@.is_prefix_of(args.last()) {
            before
        } else {
            before.push(args.last())
        }
    }
}

/// The roots to scan at launch, from the arguments of the process, the first
/// of which is the program itself.
pub fn roots_from_args(args: &[String]) -> (roots: Vec<String>)
    ensures
        roots.deep_view() == roots_in(args.deep_view()),
{
    let mut roots: Vec<String> = Vec::new();
    let ghost all = args.deep_view();
    assert(roots.deep_view() =~= Seq::<Seq<char>>::empty());
    if args.len() <= 1 {
        return roots;
    }
    let mut i: usize = 1;
    assert(all.take(1).len() == 1);
    while i < args.len()
        invariant
            1 <= i <= args.len(),
            all == args.deep_view(),
            roots.deep_view() == roots_in(all.take(i as int)),
        decreases args.len() - i,
    {
        let ghost so_far = roots.deep_view();
        assert(all.take(i + 1).drop_last() =~= all.take(i as int));
        assert(all.take(i + 1).last() == args[i as int]@);
        if !starts_with(args[i].as_str(), "-") {
            roots.push(args[i].clone());
            assert(roots.deep_view() =~= so_far.push(args[i as int]@));
        }
        i += 1;
    }
    assert(all.take(i as int) =~= all);
    roots
}

/// What a scan needs done next.
#[derive(Debug, PartialEq, Eq)]
pub enum ScanAction {
    /// Walk the tree under this root and report the entries met.
    Walk(String),
    /// All roots are walked: refresh a record for each of these paths.
    Survey(Vec<String>),
}

/// A scan in progress: its roots, how many of them are walked, and the paths
/// found under those.
pub struct Scan {
    roots: Vec<String>,
    walked: usize,
    found: Vec<String>,
}

/// The model of a [`Scan`].
pub struct ScanView {
    pub roots: Seq<Seq<char>>,
    pub walked: nat,
    pub found: Seq<Seq<char>>,
}

impl View for Scan {
    type V = ScanView;

    closed spec fn view(&self) -> ScanView {
        ScanView {
            roots: self.roots.deep_view(),
            walked: self.walked as nat,
            found: self.found.deep_view(),
        }
    }
}

/// Begins a scan of `dirs`. Gives the scan and the status line to show first.
pub fn scan_repositories(dirs: Vec<String>) -> (begun: (Scan, Notification))
    ensures
        begun.0@ == (ScanView { roots: dirs.deep_view(), walked: 0, found: Seq::empty() }),
        begun.1@ == NotificationView::SetGlobalStatus("Walking directories..."@),
{
    let scan = Scan { roots: dirs, walked: 0, found: Vec::new() };
    assert(scan.found.deep_view() =~= Seq::<Seq<char>>::empty());
    (scan, Notification::SetGlobalStatus("Walking directories...".to_owned()))
}

impl Scan {
    /// What is to be done next, and the status line to show while it is done:
    /// the next root that is not walked yet, or, when none is left, the
    /// refresh of what was found.
    pub fn next(&self) -> (next: (ScanAction, Notification))
        ensures
            self@.walked < self@.roots.len() ==> (next.0 matches ScanAction::Walk(root) && root@
                == self@.roots[self@.walked as int]) && next.1@
                == NotificationView::SetGlobalStatus(
                walking_text(self@.roots[self@.walked as int]),
            ),
            self@.walked >= self@.roots.len() ==> (next.0 matches ScanAction::Survey(paths)
                && paths.deep_view() == self@.found) && next.1@
                == NotificationView::SetGlobalStatus(analyzing_text(self@.found.len())),
    {
        if self.walked < self.roots.len() {
            let root = self.roots[self.walked].clone();
            let text = "Walking ".to_owned().concat(root.as_str()).concat("...");
            (ScanAction::Walk(root), Notification::SetGlobalStatus(text))
        } else {
            let count = decimal(self.found.len());
            let text = "Analyzing ".to_owned().concat(count.as_str()).concat(" repositories...");
            let paths = self.found.clone();
            (ScanAction::Survey(paths), Notification::SetGlobalStatus(text))
        }
    }

    /// The walk of the next root has ended and met `entries`: the root counts
    /// as walked and the repositories marked are added to what was found. When
    /// no root was left to walk, nothing changes.
    pub fn walked(&mut self, entries: &[WalkEntry])
        ensures
            old(self)@.walked < old(self)@.roots.len() ==> final(self)@ == (ScanView {
                roots: old(self)@.roots,
                walked: old(self)@.walked + 1,
                found: old(self)@.found + found_in(entries_of(entries@)),
            }),
            old(self)@.walked >= old(self)@.roots.len() ==> final(self)@ == old(self)@,
    {
        if self.walked < self.roots.len() {
            let ghost before = self.found.deep_view();
            let mut more = found_repositories(entries);
            let ghost added = more.deep_view();
            self.found.append(&mut more);
            assert(self.found.deep_view() =~= before + added);
            self.walked = self.walked + 1;
        }
    }
}

/// A record for the discovered `path`, refreshed: asks for the queries of a
/// refresh one at a time and is done when the replies suffice.
pub fn survey(path: &str, replies: &[Reply]) -> (step: Step<Repository>)
    ensures
        match refresh_query(path@, outcomes(replies@)) {
            Some(inv) => asks(step, inv),
            None => (step matches Step::Done(record) && record@ == refreshed(
                unrefreshed(path@),
                outcomes(replies@),
            )),
        },
{
    let mut record = Repository::new(path.to_owned());
    match record.refresh(replies) {
        Step::Run(inv) => Step::Run(inv),
        Step::Done(_) => Step::Done(record),
    }
}

/// What is sent at the end of a scan: the refreshed records, then the ready signal.
pub fn scan_complete(found: Vec<Repository>) -> (notes: Vec<Notification>)
    ensures
        notices(notes@) == seq![
            NotificationView::ScanComplete(views(found@)),
            NotificationView::SetGlobalStatus("Ready"@),
        ],
{
    let mut notes: Vec<Notification> = Vec::new();
    let ghost records = views(found@);
    notes.push(Notification::ScanComplete(found));
    notes.push(Notification::SetGlobalStatus("Ready".to_owned()));
    assert(notices(notes@) =~= seq![
        NotificationView::ScanComplete(records),
        NotificationView::SetGlobalStatus("Ready"@),
    ]);
    notes
}

} // verus!
