//! The boundary to the external client: what to run, and what came back.
//!
//! Nothing here starts a process. A caller runs each [`Invocation`] it is
//! handed and reports the exit as a [`Reply`].
use crate::text::{trim, trimmed};
use vstd::prelude::*;

verus! {

/// Why an operation on a repository failed.
#[derive(Debug, PartialEq, Eq)]
pub enum HgError {
    /// The client exited with a failure; holds its trimmed standard error.
    CommandFailed(String),
    /// The operation needs state that is not known; the client was not run.
    PreconditionUnmet(String),
}

/// The model of an [`HgError`].
pub enum Fault {
    CommandFailed(Seq<char>),
    PreconditionUnmet(Seq<char>),
}

impl Fault {
    /// The text carried by the fault.
    pub open spec fn message(self) -> Seq<char> {
        match self {
            Fault::CommandFailed(m) => m,
            Fault::PreconditionUnmet(m) => m,
        }
    }
}

impl View for HgError {
    type V = Fault;

    open spec fn view(&self) -> Fault {
        match self {
            HgError::CommandFailed(m) => Fault::CommandFailed(m@),
            HgError::PreconditionUnmet(m) => Fault::PreconditionUnmet(m@),
        }
    }
}

impl Clone for HgError {
    fn clone(&self) -> (r: Self)
        ensures
            r@ == self@,
    {
        match self {
            HgError::CommandFailed(m) => HgError::CommandFailed(m.clone()),
            HgError::PreconditionUnmet(m) => HgError::PreconditionUnmet(m.clone()),
        }
    }
}

impl HgError {
    /// The text carried by the error.
    pub fn message(&self) -> (r: String)
        ensures
            r@ == self@.message(),
    {
        match self {
            HgError::CommandFailed(m) => m.clone(),
            HgError::PreconditionUnmet(m) => m.clone(),
        }
    }
}

/// What one run of the client came to: its trimmed output, or the failure.
pub type Reply = Result<String, HgError>;

/// The model of a [`Reply`].
pub type Outcome = Result<Seq<char>, Fault>;

/// The model of the reply `r`.
pub open spec fn outcome(r: Reply) -> Outcome {
    match r {
        Ok(text) => Ok(text@),
        Err(e) => Err(e@),
    }
}

/// The models of the replies `replies`.
pub open spec fn outcomes(replies: Seq<Reply>) -> Seq<Outcome> {
    replies.map_values(|r: Reply| outcome(r))
}

/// A copy of `r`.
pub fn copy_reply(r: &Reply) -> (c: Reply)
    ensures
        outcome(c) == outcome(*r),
{
    match r {
        Ok(text) => Ok(text.clone()),
        Err(e) => Err(e.clone()),
    }
}

/// One run of an external program: the program, its working directory, its arguments.
#[derive(Debug, PartialEq, Eq)]
pub struct Invocation {
    pub program: String,
    pub dir: String,
    pub args: Vec<String>,
}

/// The model of an [`Invocation`].
pub struct InvocationView {
    pub program: Seq<char>,
    pub dir: Seq<char>,
    pub args: Seq<Seq<char>>,
}

impl View for Invocation {
    type V = InvocationView;

    open spec fn view(&self) -> InvocationView {
        InvocationView { program: self.program@, dir: self.dir@, args: self.args.deep_view() }
    }
}

/// A copy of the texts `list`.
pub fn copy_texts(list: &[String]) -> (copy: Vec<String>)
    ensures
        copy.deep_view() == list.deep_view(),
{
    let mut copy: Vec<String> = Vec::new();
    let mut i: usize = 0;
    assert(copy.deep_view() =~= list.deep_view().take(0));
    while i < list.len()
        invariant
            i <= list.len(),
            copy.deep_view() == list.deep_view().take(i as int),
        decreases list.len() - i,
    {
        let ghost so_far = copy.deep_view();
        copy.push(list[i].clone());
        assert(copy.deep_view() =~= so_far.push(list[i as int]@));
        assert(list.deep_view()[i as int] == list[i as int]@);
        assert(so_far.push(list[i as int]@) =~= list.deep_view().take(i + 1));
        i += 1;
    }
    assert(list.deep_view().take(i as int) =~= list.deep_view());
    copy
}

impl Clone for Invocation {
    fn clone(&self) -> (r: Self)
        ensures
            r@ == self@,
    {
        Invocation {
            program: self.program.clone(),
            dir: self.dir.clone(),
            args: copy_texts(self.args.as_slice()),
        }
    }
}

/// The client run in `dir` with `args`.
pub open spec fn hg(dir: Seq<char>, args: Seq<Seq<char>>) -> InvocationView {
    InvocationView { program: "hg"@, dir, args }
}

impl Invocation {
    /// The client run in `dir` with `args`.
    pub fn hg(dir: &str, args: Vec<String>) -> (inv: Invocation)
        ensures
            inv@ == hg(dir@, args.deep_view()),
    {
        Invocation { program: "hg".to_owned(), dir: dir.to_owned(), args }
    }
}

/// Where a resumable operation stands after the replies it was given.
#[derive(Debug, PartialEq, Eq)]
pub enum Step<T> {
    /// Run this next and append its reply to the transcript.
    Run(Invocation),
    /// Nothing is left to run; this is the result.
    Done(T),
}

/// The reply that an exit of the client stands for: on success the trimmed
/// standard output, on failure the trimmed standard error as `CommandFailed`.
pub open spec fn reply_of(success: bool, stdout: Seq<char>, stderr: Seq<char>) -> Outcome {
    if success {
        Ok(trimmed(stdout))
    } else {
        Err(Fault::CommandFailed(trimmed(stderr)))
    }
}

/// The reply for an exit of the client whose streams are already text.
pub fn reply_from_text(success: bool, stdout: &str, stderr: &str) -> (r: Reply)
    ensures
        outcome(r) == reply_of(success, stdout@, stderr@),
{
    if success {
        Ok(trim(stdout))
    } else {
        Err(HgError::CommandFailed(trim(stderr)))
    }
}

/// The text that `String::from_utf8_lossy` decodes `bytes` to.
pub uninterp spec fn lossy_text(bytes: Seq<u8>) -> Seq<char>;

/// Calls `String::from_utf8_lossy`, which decodes UTF-8 and puts U+FFFD in the
/// place of what is not. The result is a function of the bytes alone; the
/// contract gives it its name and claims nothing else.
#[verifier::external_body]
fn decode_lossy(bytes: &[u8]) -> (text: String)
    ensures
        text@ == lossy_text(bytes@),
{
    String::from_utf8_lossy(bytes).into_owned()
}

/// The reply for an exit of the client, from the raw bytes of its streams.
pub fn reply_from_output(success: bool, stdout: &[u8], stderr: &[u8]) -> (r: Reply)
    ensures
        outcome(r) == reply_of(success, lossy_text(stdout@), lossy_text(stderr@)),
{
    let out = decode_lossy(stdout);
    let err = decode_lossy(stderr);
    reply_from_text(success, out.as_str(), err.as_str())
}

/// The reply that stands for a client that could not be started.
pub fn launch_failure() -> (r: Reply)
    ensures
        outcome(r) == Err::<Seq<char>, Fault>(
            Fault::CommandFailed("Failed to execute hg command"@),
        ),
{
    Err(HgError::CommandFailed("Failed to execute hg command".to_owned()))
}

/// `step` asks for `inv` to be run.
pub open spec fn asks<T>(step: Step<T>, inv: InvocationView) -> bool {
    step matches Step::Run(i) && i@ == inv
}

/// `step` is done, with a reply whose model is `result`.
pub open spec fn answers(step: Step<Reply>, result: Outcome) -> bool {
    step matches Step::Done(r) && outcome(r) == result
}

/// What a verb that runs the single command `inv` yields on `replies`: the
/// command while no reply is there, then the first reply.
pub open spec fn single_step(step: Step<Reply>, inv: InvocationView, replies: Seq<Outcome>) -> bool {
    if replies.len() == 0 {
        asks(step, inv)
    } else {
        answers(step, replies[0])
    }
}

/// Asks for `inv` while `replies` is empty, then hands back the first reply.
pub fn single(inv: Invocation, replies: &[Reply]) -> (step: Step<Reply>)
    ensures
        single_step(step, inv@, outcomes(replies@)),
{
    if replies.len() == 0 {
        Step::Run(inv)
    } else {
        Step::Done(copy_reply(&replies[0]))
    }
}

} // verus!
