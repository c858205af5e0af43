//! One tracked repository and the verbs that can be run on it.
//!
//! A verb never starts the client. It is handed the replies gathered so far
//! and answers with the next command to run, or with its result once the
//! replies suffice. Calling it again with one more reply resumes it.
use crate::command::{
    answers, asks, hg, outcomes, single, single_step, Fault, HgError, Invocation, InvocationView,
    Outcome, Reply, Step,
};
use crate::text::{capitalize, capitalized, first_words, line_heads, starts_with};
use vstd::prelude::*;
use vstd::slice::slice_subrange;
use vstd::string::StringExecFns;

verus! {

/// A tracked repository: where it is, and what was last seen of it.
#[derive(Debug, PartialEq, Eq)]
pub struct Repository {
    /// Absolute location; the key of the record.
    pub path: String,
    /// Last known branch; empty until the first refresh, and a text that
    /// begins with `ERROR` after a refresh that could not determine it.
    pub current_branch: String,
    /// Local revision identifier, as text.
    pub revision: String,
    /// Whether uncommitted changes were seen.
    pub modified: bool,
    /// Phase of the current revision, capitalised.
    pub commit_type: String,
    /// Transient status message.
    pub last_status: String,
}

/// The model of a [`Repository`].
pub struct RecordView {
    pub path: Seq<char>,
    pub current_branch: Seq<char>,
    pub revision: Seq<char>,
    pub modified: bool,
    pub commit_type: Seq<char>,
    pub last_status: Seq<char>,
}

impl View for Repository {
    type V = RecordView;

    open spec fn view(&self) -> RecordView {
        RecordView {
            path: self.path@,
            current_branch: self.current_branch@,
            revision: self.revision@,
            modified: self.modified,
            commit_type: self.commit_type@,
            last_status: self.last_status@,
        }
    }
}

impl Clone for Repository {
    fn clone(&self) -> (r: Self)
        ensures
            r@ == self@,
    {
        Repository {
            path: self.path.clone(),
            current_branch: self.current_branch.clone(),
            revision: self.revision.clone(),
            modified: self.modified,
            commit_type: self.commit_type.clone(),
            last_status: self.last_status.clone(),
        }
    }
}

/// The models of a list of records.
pub open spec fn views(records: Seq<Repository>) -> Seq<RecordView> {
    records.map_values(|r: Repository| r@)
}

/// Whether a record of `s` has the path `path`.
pub open spec fn has_path(s: Seq<RecordView>, path: Seq<char>) -> bool {
    exists|i: int| 0 <= i < s.len() && #[trigger] s[i].path == path
}

/// Whether no two records of `s` share a path.
pub open spec fn distinct_paths(s: Seq<RecordView>) -> bool {
    forall|i: int, j: int| 0 <= i < j < s.len() ==> #[trigger] s[i].path != #[trigger] s[j].path
}

/// A record of which only the path is known.
pub open spec fn unrefreshed(path: Seq<char>) -> RecordView {
    RecordView {
        path,
        current_branch: Seq::empty(),
        revision: Seq::empty(),
        modified: false,
        commit_type: Seq::empty(),
        last_status: Seq::empty(),
    }
}

/// Whether `branch` is the marker that a refresh leaves where it could not
/// determine the branch: a text that begins with `ERROR`.
pub open spec fn branch_failed(branch: Seq<char>) -> bool {
    "ERROR"@.is_prefix_of(branch)
}

/// Whether `branch` names no branch: it is empty, as in a record that was
/// never refreshed, or it is the marker of a failed refresh.
pub open spec fn branch_unknown(branch: Seq<char>) -> bool {
    branch.len() == 0 || branch_failed(branch)
}

/// The revision set that names the last public changeset of `branch`.
pub open spec fn last_public_of(branch: Seq<char>) -> Seq<char> {
    "last(public() and branch(\""@ + branch + "\"))"@
}

/// The model of a list of branch names, or of the failure in its place.
pub open spec fn names_outcome(r: Result<Vec<String>, HgError>) -> Result<Seq<Seq<char>>, Fault> {
    match r {
        Ok(names) => Ok(names.deep_view()),
        Err(e) => Err(e@),
    }
}

/// The model of a revision and a dirty flag, or of the failure in their place.
pub open spec fn status_outcome(r: Result<(String, bool), HgError>) -> Result<
    (Seq<char>, bool),
    Fault,
> {
    match r {
        Ok(pair) => Ok((pair.0@, pair.1)),
        Err(e) => Err(e@),
    }
}

/// What the status verb runs next in `dir`: the identifier query, then, if
/// that succeeded, the query for pending changes.
pub open spec fn status_query(dir: Seq<char>, replies: Seq<Outcome>) -> Option<InvocationView> {
    if replies.len() == 0 {
        Some(hg(dir, seq!["id"@, "-n"@]))
    } else if replies[0] is Ok && replies.len() == 1 {
        Some(hg(dir, seq!["status"@, "-q"@]))
    } else {
        None
    }
}

/// How many replies the status verb reads.
pub open spec fn status_used(replies: Seq<Outcome>) -> int {
    if replies[0] is Ok {
        2
    } else {
        1
    }
}

/// The result of the status verb: the identifier, and whether the query for
/// pending changes succeeded with a non-empty answer. A failure of the
/// identifier query is the failure of the verb.
pub open spec fn status_result(replies: Seq<Outcome>) -> Result<(Seq<char>, bool), Fault> {
    match replies[0] {
        Err(f) => Err(f),
        Ok(id) => Ok(
            (
                id,
                match replies[1] {
                    Ok(changes) => changes.len() > 0,
                    Err(_) => false,
                },
            ),
        ),
    }
}

/// The query for the phase of the current revision.
pub open spec fn phase_args() -> Seq<Seq<char>> {
    seq!["log"@, "-r"@, "."@, "--template"@, "{phase}"@]
}

/// What the phase verb comes to on the reply `reply`.
pub open spec fn phase_result(reply: Outcome) -> Outcome {
    match reply {
        Ok(phase) => Ok(capitalized(phase)),
        Err(f) => Err(f),
    }
}

/// What the listing of branches comes to on the reply `reply`.
pub open spec fn branches_result(reply: Outcome) -> Result<Seq<Seq<char>>, Fault> {
    match reply {
        Ok(listing) => Ok(line_heads(listing)),
        Err(f) => Err(f),
    }
}

/// What a refresh runs next in `dir`: the branch query, the status verb's
/// queries, then the phase query.
pub open spec fn refresh_query(dir: Seq<char>, replies: Seq<Outcome>) -> Option<InvocationView> {
    if replies.len() == 0 {
        Some(hg(dir, seq!["branch"@]))
    } else if status_query(dir, replies.skip(1)) is Some {
        status_query(dir, replies.skip(1))
    } else if replies.len() == 1 + status_used(replies.skip(1)) {
        Some(hg(dir, phase_args()))
    } else {
        None
    }
}

/// The record after a refresh that read `replies`. Each query that failed
/// leaves its own marker: `ERROR` for the branch, `?` and clean for the status,
/// `Unknown` for the phase. Path and status message stay.
pub open spec fn refreshed(r: RecordView, replies: Seq<Outcome>) -> RecordView {
    let status = status_result(replies.skip(1));
    let phase = replies[1 + status_used(replies.skip(1))];
    RecordView {
        path: r.path,
        current_branch: match replies[0] {
            Ok(branch) => branch,
            Err(_) => "ERROR"@,
        },
        revision: match status {
            Ok(pair) => pair.0,
            Err(_) => "?"@,
        },
        modified: match status {
            Ok(pair) => pair.1,
            Err(_) => false,
        },
        commit_type: match phase_result(phase) {
            Ok(text) => text,
            Err(_) => "Unknown"@,
        },
        last_status: r.last_status,
    }
}

/// Yes or no, as shown for the dirty flag.
pub open spec fn yes_no(flag: bool) -> Seq<char> {
    if flag {
        "Yes"@
    } else {
        "No"@
    }
}

/// The row that shows the record `r` under the label `label`: label, branch,
/// revision, dirty flag, phase and status message, with a tab between them.
pub open spec fn row_text(label: Seq<char>, r: RecordView) -> Seq<char> {
    label + "\t"@ + r.current_branch + "\t"@ + r.revision + "\t"@ + yes_no(r.modified) + "\t"@
        + r.commit_type + "\t"@ + r.last_status
}

/// The label of the record at `i`: its path, or, where only the last segment
/// is shown, the short name at `i`, empty if there is none.
pub open spec fn label_at(
    records: Seq<RecordView>,
    short_names: Seq<Seq<char>>,
    show_full_path: bool,
    i: int,
) -> Seq<char> {
    if show_full_path {
        records[i].path
    } else if i < short_names.len() {
        short_names[i]
    } else {
        Seq::empty()
    }
}

/// The rows that show `records`, one for each, in order.
pub open spec fn rows_of(
    records: Seq<RecordView>,
    short_names: Seq<Seq<char>>,
    show_full_path: bool,
) -> Seq<Seq<char>> {
    Seq::new(
        records.len(),
        |i: int| row_text(label_at(records, short_names, show_full_path, i), records[i]),
    )
}

/// The texts of `parts` with a line feed between each two.
pub open spec fn lines_joined(parts: Seq<Seq<char>>) -> Seq<char>
    decreases parts.len(),
{
    if parts.len() == 0 {
        Seq::empty()
    } else if parts.len() == 1 {
        parts[0]
    } else {
        lines_joined(parts.drop_last()) + "\n"@ + parts.last()
    }
}

/// Appends a copy of `a` to `v`.
fn push_text(v: &mut Vec<String>, a: &str)
    ensures
        final(v).deep_view() == old(v).deep_view().push(a@),
{
    v.push(a.to_owned());
    assert(v.deep_view() =~= old(v).deep_view().push(a@));
}

/// The argument list of one text.
fn args1(a: &str) -> (v: Vec<String>)
    ensures
        v.deep_view() == seq![a@],
{
    let mut v: Vec<String> = Vec::new();
    assert(v.deep_view() =~= Seq::<Seq<char>>::empty());
    push_text(&mut v, a);
    assert(v.deep_view() =~= seq![a@]);
    v
}

/// The argument list of two texts.
fn args2(a: &str, b: &str) -> (v: Vec<String>)
    ensures
        v.deep_view() == seq![a@, b@],
{
    let mut v = args1(a);
    push_text(&mut v, b);
    assert(v.deep_view() =~= seq![a@, b@]);
    v
}

/// The argument list of three texts.
fn args3(a: &str, b: &str, c: &str) -> (v: Vec<String>)
    ensures
        v.deep_view() == seq![a@, b@, c@],
{
    let mut v = args2(a, b);
    push_text(&mut v, c);
    assert(v.deep_view() =~= seq![a@, b@, c@]);
    v
}

impl Repository {
    /// A record for `path` that has not been refreshed yet.
    pub fn new(path: String) -> (r: Self)
        ensures
            r@ == unrefreshed(path@),
    {
        Repository {
            path,
            current_branch: String::new(),
            revision: String::new(),
            modified: false,
            commit_type: String::new(),
            last_status: String::new(),
        }
    }

    /// The row that shows the record under the label `label`.
    pub fn row(&self, label: &str) -> (text: String)
        ensures
            text@ == row_text(label@, self@),
    {
        let flag = if self.modified {
            "Yes"
        } else {
            "No"
        };
        label.to_owned().concat("\t").concat(self.current_branch.as_str()).concat("\t").concat(
            self.revision.as_str(),
        ).concat("\t").concat(flag).concat("\t").concat(self.commit_type.as_str()).concat(
            "\t",
        ).concat(self.last_status.as_str())
    }

    /// Whether the last refresh failed to determine the branch.
    pub fn branch_failed(&self) -> (failed: bool)
        ensures
            failed == branch_failed(self.current_branch@),
    {
        starts_with(self.current_branch.as_str(), "ERROR")
    }

    /// Whether the current branch is known: a refresh has read it, so it is
    /// neither empty nor the marker of a failed refresh.
    pub fn branch_known(&self) -> (known: bool)
        ensures
            known == !branch_unknown(self.current_branch@),
    {
        !self.current_branch.as_str().is_empty() && !self.branch_failed()
    }

    /// Re-derives branch, revision, dirty flag and phase. The record stays as it
    /// is until the replies suffice, and then all four change at once. A query
    /// that failed leaves a marker in its field; the refresh itself never fails.
    pub fn refresh(&mut self, replies: &[Reply]) -> (step: Step<()>)
        ensures
            final(self)@.path == old(self)@.path,
            final(self)@.last_status == old(self)@.last_status,
            match refresh_query(old(self)@.path, outcomes(replies@)) {
                Some(inv) => asks(step, inv) && final(self)@ == old(self)@,
                None => step is Done && final(self)@ == refreshed(old(self)@, outcomes(replies@)),
            },
    {
        let branch = match self.get_current_branch(replies) {
            Step::Run(inv) => {
                return Step::Run(inv);
            },
            Step::Done(r) => r,
        };
        let n = replies.len();
        let after_branch = slice_subrange(replies, 1, n);
        assert(outcomes(after_branch@) =~= outcomes(replies@).skip(1));
        let status = match self.get_repo_status(after_branch) {
            Step::Run(inv) => {
                return Step::Run(inv);
            },
            Step::Done(r) => r,
        };
        let used: usize = if status.is_ok() {
            3
        } else {
            2
        };
        if n <= used {
            return Step::Run(Invocation::hg(self.path.as_str(), phase_list()));
        }
        let after_status = slice_subrange(replies, used, n);
        assert(outcomes(after_status@)[0] == outcomes(replies@)[used as int]);
        let phase = match self.get_commit_type(after_status) {
            Step::Run(inv) => {
                return Step::Run(inv);
            },
            Step::Done(r) => r,
        };
        self.current_branch = match branch {
            Ok(name) => name,
            Err(_) => "ERROR".to_owned(),
        };
        match status {
            Ok((revision, modified)) => {
                self.revision = revision;
                self.modified = modified;
            },
            Err(_) => {
                self.revision = "?".to_owned();
                self.modified = false;
            },
        }
        self.commit_type = match phase {
            Ok(text) => text,
            Err(_) => "Unknown".to_owned(),
        };
        Step::Done(())
    }

    /// The name of the current branch.
    pub fn get_current_branch(&self, replies: &[Reply]) -> (step: Step<Reply>)
        ensures
            single_step(step, hg(self.path@, seq!["branch"@]), outcomes(replies@)),
    {
        single(Invocation::hg(self.path.as_str(), args1("branch")), replies)
    }

    /// The names of all branches: the first word of each line of the listing.
    pub fn get_all_branches(&self, replies: &[Reply]) -> (step: Step<Result<Vec<String>, HgError>>)
        ensures
            replies@.len() == 0 ==> asks(step, hg(self.path@, seq!["branches"@])),
            replies@.len() > 0 ==> (step matches Step::Done(r) && names_outcome(r)
                == branches_result(outcomes(replies@)[0])),
    {
        if replies.len() == 0 {
            Step::Run(Invocation::hg(self.path.as_str(), args1("branches")))
        } else {
            match &replies[0] {
                Ok(listing) => Step::Done(Ok(first_words(listing.as_str()))),
                Err(e) => Step::Done(Err(e.clone())),
            }
        }
    }

    /// The phase of the current revision, capitalised.
    pub fn get_commit_type(&self, replies: &[Reply]) -> (step: Step<Reply>)
        ensures
            replies@.len() == 0 ==> asks(step, hg(self.path@, phase_args())),
            replies@.len() > 0 ==> answers(step, phase_result(outcomes(replies@)[0])),
    {
        if replies.len() == 0 {
            Step::Run(Invocation::hg(self.path.as_str(), phase_list()))
        } else {
            match &replies[0] {
                Ok(phase) => Step::Done(Ok(capitalize(phase.as_str()))),
                Err(e) => Step::Done(Err(e.clone())),
            }
        }
    }

    /// Pulls every branch.
    pub fn pull_all_branches(&self, replies: &[Reply]) -> (step: Step<Reply>)
        ensures
            single_step(step, hg(self.path@, seq!["pull"@]), outcomes(replies@)),
    {
        single(Invocation::hg(self.path.as_str(), args1("pull")), replies)
    }

    /// Pulls the current branch. While the branch is not known, be it that the
    /// record was never refreshed or that the refresh failed, this fails at
    /// once, whatever the replies, and asks for no command.
    pub fn pull_current_branch(&self, replies: &[Reply]) -> (step: Step<Reply>)
        ensures
            branch_unknown(self.current_branch@) ==> answers(
                step,
                Err(Fault::PreconditionUnmet("Cannot pull: current branch unknown"@)),
            ),
            !branch_unknown(self.current_branch@) ==> single_step(
                step,
                hg(self.path@, seq!["pull"@, "-b"@, self.current_branch@]),
                outcomes(replies@),
            ),
    {
        if !self.branch_known() {
            return Step::Done(
                Err(HgError::PreconditionUnmet("Cannot pull: current branch unknown".to_owned())),
            );
        }
        single(
            Invocation::hg(self.path.as_str(), args3("pull", "-b", self.current_branch.as_str())),
            replies,
        )
    }

    /// Updates the working copy to the latest revision.
    pub fn update_to_latest(&self, replies: &[Reply]) -> (step: Step<Reply>)
        ensures
            single_step(step, hg(self.path@, seq!["update"@]), outcomes(replies@)),
    {
        single(Invocation::hg(self.path.as_str(), args1("update")), replies)
    }

    /// The local revision identifier, and whether there are uncommitted
    /// changes. A failed query for changes counts as none.
    pub fn get_repo_status(&self, replies: &[Reply]) -> (step: Step<Result<(String, bool), HgError>>)
        ensures
            match status_query(self.path@, outcomes(replies@)) {
                Some(inv) => asks(step, inv),
                None => step matches Step::Done(r) && status_outcome(r) == status_result(
                    outcomes(replies@),
                ),
            },
    {
        if replies.len() == 0 {
            return Step::Run(Invocation::hg(self.path.as_str(), args2("id", "-n")));
        }
        match &replies[0] {
            Err(e) => Step::Done(Err(e.clone())),
            Ok(id) => {
                if replies.len() == 1 {
                    Step::Run(Invocation::hg(self.path.as_str(), args2("status", "-q")))
                } else {
                    let modified = match &replies[1] {
                        Ok(changes) => !changes.as_str().is_empty(),
                        Err(_) => false,
                    };
                    Step::Done(Ok((id.clone(), modified)))
                }
            },
        }
    }

    /// Updates the working copy to `new_branch`.
    pub fn update_branch(&self, new_branch: &str, replies: &[Reply]) -> (step: Step<Reply>)
        ensures
            single_step(step, hg(self.path@, seq!["update"@, new_branch@]), outcomes(replies@)),
    {
        single(Invocation::hg(self.path.as_str(), args2("update", new_branch)), replies)
    }

    /// Reverts all uncommitted changes.
    pub fn revert_changes(&self, replies: &[Reply]) -> (step: Step<Reply>)
        ensures
            single_step(step, hg(self.path@, seq!["revert"@, "--all"@]), outcomes(replies@)),
    {
        single(Invocation::hg(self.path.as_str(), args2("revert", "--all")), replies)
    }

    /// Commits the pending changes with `message`.
    pub fn commit(&self, message: &str, replies: &[Reply]) -> (step: Step<Reply>)
        ensures
            single_step(
                step,
                hg(self.path@, seq!["commit"@, "-m"@, message@]),
                outcomes(replies@),
            ),
    {
        single(Invocation::hg(self.path.as_str(), args3("commit", "-m", message)), replies)
    }

    /// Updates the working copy to the last public changeset of the current
    /// branch. While the branch is the marker of a failed refresh this fails
    /// at once and asks for no command. Any other branch text, an empty one
    /// too, goes into the revision set as it is.
    pub fn update_to_last_public(&self, replies: &[Reply]) -> (step: Step<Reply>)
        ensures
            branch_failed(self.current_branch@) ==> answers(
                step,
                Err(Fault::PreconditionUnmet("Unknown branch"@)),
            ),
            !branch_failed(self.current_branch@) ==> single_step(
                step,
                hg(self.path@, seq!["update"@, "-r"@, last_public_of(self.current_branch@)]),
                outcomes(replies@),
            ),
    {
        if self.branch_failed() {
            return Step::Done(Err(HgError::PreconditionUnmet("Unknown branch".to_owned())));
        }
        let rev_spec = "last(public() and branch(\"".to_owned().concat(
            self.current_branch.as_str(),
        ).concat("\"))");
        single(Invocation::hg(self.path.as_str(), args3("update", "-r", rev_spec.as_str())), replies)
    }
}

/// A copy of the records `list`.
pub fn copy_records(list: &[Repository]) -> (copy: Vec<Repository>)
    ensures
        views(copy@) == views(list@),
{
    let mut copy: Vec<Repository> = Vec::new();
    let mut i: usize = 0;
    assert(views(copy@) =~= views(list@).take(0));
    while i < list.len()
        invariant
            i <= list.len(),
            views(copy@) == views(list@).take(i as int),
        decreases list.len() - i,
    {
        let ghost so_far = views(copy@);
        copy.push(list[i].clone());
        assert(views(copy@) =~= so_far.push(list[i as int]@));
        assert(so_far.push(list[i as int]@) =~= views(list@).take(i + 1));
        i += 1;
    }
    assert(views(list@).take(i as int) =~= views(list@));
    copy
}

/// The rows that show `repos`, one for each, in order. Where whole paths are
/// not shown, `short_names` gives the last segment of each path.
pub fn update_browser(repos: &[Repository], short_names: &[String], show_full_path: bool) -> (rows:
    Vec<String>)
    ensures
        rows.deep_view() == rows_of(views(repos@), short_names.deep_view(), show_full_path),
{
    let mut rows: Vec<String> = Vec::new();
    let mut i: usize = 0;
    let ghost all = rows_of(views(repos@), short_names.deep_view(), show_full_path);
    assert(rows.deep_view() =~= all.take(0));
    while i < repos.len()
        invariant
            i <= repos.len(),
            all == rows_of(views(repos@), short_names.deep_view(), show_full_path),
            rows.deep_view() == all.take(i as int),
        decreases repos.len() - i,
    {
        let ghost so_far = rows.deep_view();
        let row = if show_full_path {
            repos[i].row(repos[i].path.as_str())
        } else if i < short_names.len() {
            assert(short_names.deep_view()[i as int] == short_names[i as int]@);
            repos[i].row(short_names[i].as_str())
        } else {
            repos[i].row("")
        };
        proof {
            assert(""@ =~= Seq::<char>::empty()) by {
                reveal_strlit("");
            }
            assert(row@ == all[i as int]);
        }
        rows.push(row);
        assert(rows.deep_view() =~= so_far.push(all[i as int]));
        assert(so_far.push(all[i as int]) =~= all.take(i + 1));
        i += 1;
    }
    assert(all.take(i as int) =~= all);
    rows
}

/// The paths of `selection`, one on each line.
pub fn copy_text(selection: &[Repository]) -> (text: String)
    ensures
        text@ == lines_joined(views(selection@).map_values(|r: RecordView| r.path)),
{
    let mut text = String::new();
    let mut i: usize = 0;
    let ghost paths = views(selection@).map_values(|r: RecordView| r.path);
    assert(paths.take(0) =~= Seq::<Seq<char>>::empty());
    while i < selection.len()
        invariant
            i <= selection.len(),
            paths == views(selection@).map_values(|r: RecordView| r.path),
            text@ == lines_joined(paths.take(i as int)),
        decreases selection.len() - i,
    {
        let ghost so_far = text@;
        assert(paths.take(i + 1).drop_last() =~= paths.take(i as int));
        assert(paths.take(i + 1).last() == selection[i as int].path@);
        if i > 0 {
            text.append("\n");
        }
        text.append(selection[i].path.as_str());
        proof {
            if i == 0 {
                assert(so_far + selection[i as int].path@ =~= selection[i as int].path@);
                assert(paths.take(1)[0] == selection[i as int].path@);
            }
        }
        i += 1;
    }
    assert(paths.take(i as int) =~= paths);
    text
}

/// The arguments of the phase query.
fn phase_list() -> (v: Vec<String>)
    ensures
        v.deep_view() == phase_args(),
{
    let mut v = args3("log", "-r", ".");
    push_text(&mut v, "--template");
    push_text(&mut v, "{phase}");
    assert(v.deep_view() =~= phase_args());
    v
}

} // verus!
