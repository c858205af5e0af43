//! Bulk operations: what one worker does for one repository, the messages
//! that go back to the owner of the collection, and the end of a batch.
//!
//! A batch is started for a selection and an operation. Each selected record
//! first gets a status message that says the work has begun. A worker then
//! performs the operation on its own copy of the record, refreshes the copy
//! whatever the operation came to, and hands it back with a final status.
//! When the last worker has handed back, the batch says so, once.
use crate::collection::with_status;
use crate::command::{
    answers, asks, hg, outcomes, single_step, Fault, HgError, InvocationView, Outcome, Reply, Step,
};
use crate::repo::{
    branch_unknown, copy_records, refresh_query, refreshed, views, RecordView, Repository,
};
use vstd::prelude::*;
use vstd::slice::slice_subrange;
use vstd::string::StringExecFns;

verus! {

/// A message to the owner of the collection.
#[derive(Debug, PartialEq, Eq)]
pub enum Notification {
    /// A scan has ended and found these repositories, each refreshed.
    ScanComplete(Vec<Repository>),
    /// An operation on the repository has ended; this is its record now.
    RepoUpdated(Repository),
    /// The status message of the repository at the path (first) is the text (second).
    SetStatus(String, String),
    /// The status line of the whole application is this text.
    SetGlobalStatus(String),
}

/// The model of a [`Notification`].
pub enum NotificationView {
    ScanComplete(Seq<RecordView>),
    RepoUpdated(RecordView),
    SetStatus(Seq<char>, Seq<char>),
    SetGlobalStatus(Seq<char>),
}

impl View for Notification {
    type V = NotificationView;

    open spec fn view(&self) -> NotificationView {
        match self {
            Notification::ScanComplete(found) => NotificationView::ScanComplete(views(found@)),
            Notification::RepoUpdated(record) => NotificationView::RepoUpdated(record@),
            Notification::SetStatus(path, text) => NotificationView::SetStatus(path@, text@),
            Notification::SetGlobalStatus(text) => NotificationView::SetGlobalStatus(text@),
        }
    }
}

impl Clone for Notification {
    fn clone(&self) -> (r: Self)
        ensures
            r@ == self@,
    {
        match self {
            Notification::ScanComplete(found) => Notification::ScanComplete(
                copy_records(found.as_slice()),
            ),
            Notification::RepoUpdated(record) => Notification::RepoUpdated(record.clone()),
            Notification::SetStatus(path, text) => Notification::SetStatus(
                path.clone(),
                text.clone(),
            ),
            Notification::SetGlobalStatus(text) => Notification::SetGlobalStatus(text.clone()),
        }
    }
}

/// The models of a list of notifications.
pub open spec fn notices(list: Seq<Notification>) -> Seq<NotificationView> {
    list.map_values(|n: Notification| n@)
}

/// An operation that can be run on every repository of a selection.
#[derive(Debug, PartialEq, Eq)]
pub enum Operation {
    /// Re-derive the state, and nothing else.
    Refresh,
    /// Pull all branches.
    PullAll,
    /// Pull the current branch.
    PullCurrent,
    /// Update the working copy to the latest revision.
    UpdateLatest,
    /// Update the working copy to the named branch.
    SwitchBranch(String),
    /// Commit the pending changes with the message.
    Commit(String),
}

/// The model of an [`Operation`].
pub enum OperationView {
    Refresh,
    PullAll,
    PullCurrent,
    UpdateLatest,
    SwitchBranch(Seq<char>),
    Commit(Seq<char>),
}

impl View for Operation {
    type V = OperationView;

    open spec fn view(&self) -> OperationView {
        match self {
            Operation::Refresh => OperationView::Refresh,
            Operation::PullAll => OperationView::PullAll,
            Operation::PullCurrent => OperationView::PullCurrent,
            Operation::UpdateLatest => OperationView::UpdateLatest,
            Operation::SwitchBranch(target) => OperationView::SwitchBranch(target@),
            Operation::Commit(message) => OperationView::Commit(message@),
        }
    }
}

impl Clone for Operation {
    fn clone(&self) -> (r: Self)
        ensures
            r@ == self@,
    {
        match self {
            Operation::Refresh => Operation::Refresh,
            Operation::PullAll => Operation::PullAll,
            Operation::PullCurrent => Operation::PullCurrent,
            Operation::UpdateLatest => Operation::UpdateLatest,
            Operation::SwitchBranch(target) => Operation::SwitchBranch(target.clone()),
            Operation::Commit(message) => Operation::Commit(message.clone()),
        }
    }
}

/// The status message of a record while the operation runs on it.
pub open spec fn progress_text(op: OperationView) -> Seq<char> {
    match op {
        OperationView::Refresh => "Refreshing..."@,
        OperationView::PullAll => "Pull All Branches..."@,
        OperationView::PullCurrent => "Pull Current Branch..."@,
        OperationView::UpdateLatest => "Update to Latest..."@,
        OperationView::SwitchBranch(_) => "Switching..."@,
        OperationView::Commit(_) => "Committing..."@,
    }
}

/// The status message of a record on which the operation succeeded.
pub open spec fn success_text(op: OperationView) -> Seq<char> {
    match op {
        OperationView::Refresh => "Ready"@,
        OperationView::PullAll => "Success"@,
        OperationView::PullCurrent => "Success"@,
        OperationView::UpdateLatest => "Success"@,
        OperationView::SwitchBranch(_) => "Switched"@,
        OperationView::Commit(_) => "Committed"@,
    }
}

/// The status message of a record on which an operation failed with `fault`.
pub open spec fn failure_text(fault: Fault) -> Seq<char> {
    "Error: "@ + fault.message()
}

/// The command of the operation on the record `r`, if it has one, or the
/// reason why it cannot be issued.
pub open spec fn command_of(op: OperationView, r: RecordView) -> Option<
    Result<InvocationView, Fault>,
> {
    match op {
        OperationView::Refresh => None,
        OperationView::PullAll => Some(Ok(hg(r.path, seq!["pull"@]))),
        OperationView::PullCurrent => Some(
            if branch_unknown(r.current_branch) {
                Err(Fault::PreconditionUnmet("Cannot pull: current branch unknown"@))
            } else {
                Ok(hg(r.path, seq!["pull"@, "-b"@, r.current_branch]))
            },
        ),
        OperationView::UpdateLatest => Some(Ok(hg(r.path, seq!["update"@]))),
        OperationView::SwitchBranch(target) => Some(Ok(hg(r.path, seq!["update"@, target]))),
        OperationView::Commit(message) => Some(Ok(hg(r.path, seq!["commit"@, "-m"@, message]))),
    }
}

/// How many replies the operation's own command reads: one if a command is
/// issued, none otherwise.
pub open spec fn command_replies(op: OperationView, r: RecordView) -> int {
    match command_of(op, r) {
        Some(Ok(_)) => 1,
        _ => 0,
    }
}

/// What the operation's own command came to. An operation without a command
/// succeeds with nothing; one that cannot issue its command fails with the reason.
pub open spec fn command_result(op: OperationView, r: RecordView, replies: Seq<Outcome>) -> Outcome {
    match command_of(op, r) {
        None => Ok(Seq::empty()),
        Some(Err(fault)) => Err(fault),
        Some(Ok(_)) => replies[0],
    }
}

/// What a worker runs next: the operation's command, then the queries of the
/// refresh that follows it.
pub open spec fn perform_query(op: OperationView, r: RecordView, replies: Seq<Outcome>) -> Option<
    InvocationView,
> {
    match command_of(op, r) {
        Some(Ok(inv)) => if replies.len() == 0 {
            Some(inv)
        } else {
            refresh_query(r.path, replies.skip(1))
        },
        _ => refresh_query(r.path, replies),
    }
}

/// The record that a worker hands back: refreshed from the replies that
/// follow the operation's own, with the operation's success label as status
/// message, or `Error: ` and the failure's text.
pub open spec fn performed(op: OperationView, r: RecordView, replies: Seq<Outcome>) -> RecordView {
    with_status(
        refreshed(r, replies.skip(command_replies(op, r))),
        match command_result(op, r, replies) {
            Ok(_) => success_text(op),
            Err(fault) => failure_text(fault),
        },
    )
}

/// What is sent when a worker hands back `updated` while `outstanding`
/// workers of its batch, itself included, had not: the record, and behind it
/// the ready signal if it was the last.
pub open spec fn completion(outstanding: nat, updated: RecordView) -> Seq<NotificationView> {
    if outstanding == 1 {
        seq![
            NotificationView::RepoUpdated(updated),
            NotificationView::SetGlobalStatus("Ready"@),
        ]
    } else {
        seq![NotificationView::RepoUpdated(updated)]
    }
}

/// How many workers of a batch of `size` are outstanding after `done` of
/// them handed back.
pub open spec fn outstanding_after(size: nat, done: nat) -> nat {
    if done <= size {
        (size - done) as nat
    } else {
        0
    }
}

/// What is sent, in order, while the workers of a batch of `size` hand back
/// the records `updates`, one after the other.
pub open spec fn handed_back(size: nat, updates: Seq<RecordView>) -> Seq<NotificationView>
    decreases updates.len(),
{
    if updates.len() == 0 {
        Seq::<NotificationView>::empty()
    } else {
        handed_back(size, updates.drop_last()) + completion(
            outstanding_after(size, (updates.len() - 1) as nat),
            updates.last(),
        )
    }
}

/// As long as a worker of the batch is outstanding, what is sent is the
/// records handed back and nothing else. When the last worker hands back, the
/// ready signal follows its record: it is sent once, behind every record.
pub proof fn lemma_ready_once(size: nat, updates: Seq<RecordView>)
    requires
        updates.len() <= size,
    ensures
        updates.len() < size ==> handed_back(size, updates) == updates.map_values(
            |r: RecordView| NotificationView::RepoUpdated(r),
        ),
        updates.len() == size && size > 0 ==> handed_back(size, updates) == updates.map_values(
            |r: RecordView| NotificationView::RepoUpdated(r),
        ).push(NotificationView::SetGlobalStatus("Ready"@)),
    decreases updates.len(),
{
    let sent = |r: RecordView| NotificationView::RepoUpdated(r);
    if updates.len() > 0 {
        let front = updates.drop_last();
        lemma_ready_once(size, front);
        assert(handed_back(size, front) == front.map_values(sent));
        assert(updates.map_values(sent) =~= front.map_values(sent).push(sent(updates.last())));
        if updates.len() == size {
            assert(front.map_values(sent) + completion(1, updates.last()) =~= updates.map_values(
                sent,
            ).push(NotificationView::SetGlobalStatus("Ready"@)));
        } else {
            assert(front.map_values(sent) + completion(
                outstanding_after(size, front.len()),
                updates.last(),
            ) =~= updates.map_values(sent));
        }
    } else {
        assert(handed_back(size, updates) =~= updates.map_values(sent));
    }
}

/// The status message for an operation that failed with `e`.
pub fn failure_status(e: &HgError) -> (text: String)
    ensures
        text@ == failure_text(e@),
{
    let message = e.message();
    "Error: ".to_owned().concat(message.as_str())
}

impl Operation {
    /// A switch to the branch `target`; none if `target` is empty.
    pub fn switch_branch(target: String) -> (op: Option<Operation>)
        ensures
            target@.len() == 0 ==> op is None,
            target@.len() > 0 ==> (op matches Some(o) && o@ == OperationView::SwitchBranch(
                target@,
            )),
    {
        if target.as_str().is_empty() {
            None
        } else {
            Some(Operation::SwitchBranch(target))
        }
    }

    /// A commit with `message`; none if `message` is empty.
    pub fn commit(message: String) -> (op: Option<Operation>)
        ensures
            message@.len() == 0 ==> op is None,
            message@.len() > 0 ==> (op matches Some(o) && o@ == OperationView::Commit(message@)),
    {
        if message.as_str().is_empty() {
            None
        } else {
            Some(Operation::Commit(message))
        }
    }

    /// The status message of a record while the operation runs on it.
    pub fn progress_label(&self) -> (text: String)
        ensures
            text@ == progress_text(self@),
    {
        match self {
            Operation::Refresh => "Refreshing...".to_owned(),
            Operation::PullAll => "Pull All Branches...".to_owned(),
            Operation::PullCurrent => "Pull Current Branch...".to_owned(),
            Operation::UpdateLatest => "Update to Latest...".to_owned(),
            Operation::SwitchBranch(_) => "Switching...".to_owned(),
            Operation::Commit(_) => "Committing...".to_owned(),
        }
    }

    /// The status message of a record on which the operation succeeded.
    pub fn success_label(&self) -> (text: String)
        ensures
            text@ == success_text(self@),
    {
        match self {
            Operation::Refresh => "Ready".to_owned(),
            Operation::PullAll => "Success".to_owned(),
            Operation::PullCurrent => "Success".to_owned(),
            Operation::UpdateLatest => "Success".to_owned(),
            Operation::SwitchBranch(_) => "Switched".to_owned(),
            Operation::Commit(_) => "Committed".to_owned(),
        }
    }

    /// Runs the operation's own command on `record`: asks for it while no
    /// reply is there, then hands back the first reply. An operation without
    /// a command, or one that cannot issue it, is done at once.
    pub fn run(&self, record: &Repository, replies: &[Reply]) -> (step: Step<Reply>)
        ensures
            match command_of(self@, record@) {
                None => answers(step, Ok(Seq::empty())),
                Some(Err(fault)) => answers(step, Err(fault)),
                Some(Ok(inv)) => single_step(step, inv, outcomes(replies@)),
            },
    {
        match self {
            Operation::Refresh => Step::Done(Ok(String::new())),
            Operation::PullAll => record.pull_all_branches(replies),
            Operation::PullCurrent => record.pull_current_branch(replies),
            Operation::UpdateLatest => record.update_to_latest(replies),
            Operation::SwitchBranch(target) => record.update_branch(target.as_str(), replies),
            Operation::Commit(message) => record.commit(message.as_str(), replies),
        }
    }

    /// How many replies the operation's own command reads on `record`.
    pub fn replies_used(&self, record: &Repository) -> (n: usize)
        ensures
            n == command_replies(self@, record@),
    {
        match self {
            Operation::Refresh => 0,
            Operation::PullCurrent => if record.branch_known() {
                1
            } else {
                0
            },
            _ => 1,
        }
    }
}

/// The work of one worker on its copy of `record`: the operation, then a
/// refresh whatever the operation came to, then the final status message.
/// Asks for one command at a time and is done when the replies suffice.
pub fn perform(op: &Operation, record: &Repository, replies: &[Reply]) -> (step: Step<Repository>)
    ensures
        match perform_query(op@, record@, outcomes(replies@)) {
            Some(inv) => asks(step, inv),
            None => (step matches Step::Done(updated) && updated@ == performed(
                op@,
                record@,
                outcomes(replies@),
            )),
        },
{
    let attempt = match op.run(record, replies) {
        Step::Run(inv) => {
            return Step::Run(inv);
        },
        Step::Done(reply) => reply,
    };
    let used = op.replies_used(record);
    let rest = slice_subrange(replies, used, replies.len());
    assert(outcomes(rest@) =~= outcomes(replies@).skip(used as int));
    let mut updated = record.clone();
    match updated.refresh(rest) {
        Step::Run(inv) => {
            return Step::Run(inv);
        },
        Step::Done(_) => {},
    }
    updated.last_status = match attempt {
        Ok(_) => op.success_label(),
        Err(e) => failure_status(&e),
    };
    Step::Done(updated)
}

/// The workers of one batch that have not handed back yet.
pub struct Batch {
    outstanding: usize,
}

impl Batch {
    /// The number of workers that have not handed back yet.
    pub closed spec fn outstanding(&self) -> nat {
        self.outstanding as nat
    }

    /// Starts a batch of `op` on `selection`: one worker for each record, and
    /// for each, in order, the status message that says its work has begun.
    pub fn start(selection: &[Repository], op: &Operation) -> (started: (Batch, Vec<Notification>))
        ensures
            started.0.outstanding() == selection@.len(),
            notices(started.1@) == views(selection@).map_values(
                |r: RecordView| NotificationView::SetStatus(r.path, progress_text(op@)),
            ),
    {
        let mut notes: Vec<Notification> = Vec::new();
        let mut i: usize = 0;
        let ghost all = views(selection@).map_values(
            |r: RecordView| NotificationView::SetStatus(r.path, progress_text(op@)),
        );
        assert(notices(notes@) =~= all.take(0));
        while i < selection.len()
            invariant
                i <= selection.len(),
                all == views(selection@).map_values(
                    |r: RecordView| NotificationView::SetStatus(r.path, progress_text(op@)),
                ),
                notices(notes@) == all.take(i as int),
            decreases selection.len() - i,
        {
            let ghost so_far = notices(notes@);
            let note = Notification::SetStatus(selection[i].path.clone(), op.progress_label());
            assert(note@ == all[i as int]);
            notes.push(note);
            assert(notices(notes@) =~= so_far.push(all[i as int]));
            assert(so_far.push(all[i as int]) =~= all.take(i + 1));
            i += 1;
        }
        assert(all.take(i as int) =~= all);
        (Batch { outstanding: selection.len() }, notes)
    }

    /// Whether every worker has handed back.
    pub fn is_complete(&self) -> (complete: bool)
        ensures
            complete == (self.outstanding() == 0),
    {
        self.outstanding == 0
    }

    /// A worker hands back `updated`. Gives what is to be sent for it: the
    /// record, and behind it, if this was the last worker, the ready signal.
    pub fn finished(&mut self, updated: Repository) -> (notes: Vec<Notification>)
        ensures
            notices(notes@) == completion(old(self).outstanding(), updated@),
            final(self).outstanding() == if old(self).outstanding() == 0 {
                0
            } else {
                old(self).outstanding() - 1
            },
    {
        let mut notes: Vec<Notification> = Vec::new();
        let ghost record = updated@;
        notes.push(Notification::RepoUpdated(updated));
        assert(notices(notes@) =~= seq![NotificationView::RepoUpdated(record)]);
        if self.outstanding == 1 {
            notes.push(Notification::SetGlobalStatus("Ready".to_owned()));
            assert(notices(notes@) =~= completion(1, record));
        }
        if self.outstanding > 0 {
            self.outstanding = self.outstanding - 1;
        }
        notes
    }
}

} // verus!
