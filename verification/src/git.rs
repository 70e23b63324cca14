//! The repository transaction: stage everything, commit on top of the branch
//! tip, push. The repository itself stays with the caller, who carries out
//! one action at a time and reports how it went.

use crate::clock::{commit_message, commit_message_text, Timestamp};
use crate::config::Config;
use crate::error::SyncError;
use vstd::prelude::*;

verus! {

/// The name of an object of the repository, in hexadecimal.
#[derive(Debug)]
pub struct ObjectId {
    hex: String,
}

impl View for ObjectId {
    type V = Seq<char>;

    closed spec fn view(&self) -> Seq<char> {
        self.hex@
    }
}

impl ObjectId {
    pub fn new(hex: String) -> (id: ObjectId)
        ensures
            id@ == hex@,
    {
        ObjectId { hex }
    }

    pub fn hex(&self) -> (hex: String)
        ensures
            hex@ == self@,
    {
        self.hex.clone()
    }

    /// Another value for the same name.
    pub fn duplicate(&self) -> (id: ObjectId)
        ensures
            id@ == self@,
    {
        ObjectId { hex: self.hex.clone() }
    }
}

/// The view of an object name that may be missing.
pub open spec fn named(id: Option<ObjectId>) -> Option<Seq<char>> {
    match id {
        Some(id) => Some(id@),
        None => None,
    }
}

/// What the caller is asked to do to the repository.
#[derive(Debug)]
pub enum GitAction {
    /// Add the whole working tree to the index, deletions included, and write
    /// the index out as a tree.
    StageAll,
    /// Look up the commit at the tip of the current branch.
    ResolveHead,
    /// Create a commit of `tree` on top of `parent` and move the branch to it.
    Commit { tree: ObjectId, parent: ObjectId, message: String },
    /// Push to `remote` by `refspec`.
    Push { remote: String, refspec: String },
}

/// An action as contracts see it.
pub enum GitActionView {
    StageAll,
    ResolveHead,
    Commit { tree: Seq<char>, parent: Seq<char>, message: Seq<char> },
    Push { remote: Seq<char>, refspec: Seq<char> },
}

impl View for GitAction {
    type V = GitActionView;

    open spec fn view(&self) -> GitActionView {
        match self {
            GitAction::StageAll => GitActionView::StageAll,
            GitAction::ResolveHead => GitActionView::ResolveHead,
            GitAction::Commit { tree, parent, message } => GitActionView::Commit {
                tree: tree@,
                parent: parent@,
                message: message@,
            },
            GitAction::Push { remote, refspec } => GitActionView::Push {
                remote: remote@,
                refspec: refspec@,
            },
        }
    }
}

/// How a transaction goes on once an outcome is in.
#[derive(Debug)]
pub enum GitStep {
    /// The caller is asked for the next action.
    Next(GitAction),
    /// The transaction has ended: with the commit that was made and pushed,
    /// or with the failure that ended it.
    Finished(Result<ObjectId, SyncError>),
}

/// A step of the transaction as contracts see it.
pub enum GitStepView {
    Next(GitActionView),
    Finished(Result<Seq<char>, SyncError>),
}

impl View for GitStep {
    type V = GitStepView;

    open spec fn view(&self) -> GitStepView {
        match self {
            GitStep::Next(action) => GitStepView::Next(action@),
            GitStep::Finished(Ok(id)) => GitStepView::Finished(Ok(id@)),
            GitStep::Finished(Err(e)) => GitStepView::Finished(Err(*e)),
        }
    }
}

/// How the last action went.
#[derive(Debug)]
pub enum GitOutcome {
    /// The tree that staging wrote; `None` where staging failed.
    Staged(Option<ObjectId>),
    /// The commit at the branch tip; `None` where the branch has none.
    Head(Option<ObjectId>),
    /// The commit that was created; `None` where it could not be.
    Committed(Option<ObjectId>),
    /// Whether the remote took the push.
    Pushed(bool),
}

/// An outcome as contracts see it.
pub enum GitOutcomeView {
    Staged(Option<Seq<char>>),
    Head(Option<Seq<char>>),
    Committed(Option<Seq<char>>),
    Pushed(bool),
}

impl GitStepView {
    /// The action that the step asks for, if it asks for one.
    pub open spec fn asks(self) -> Option<GitActionView> {
        match self {
            GitStepView::Next(action) => Some(action),
            GitStepView::Finished(_) => None,
        }
    }
}

impl GitOutcomeView {
    /// Whether the action went well.
    pub open spec fn succeeded(self) -> bool {
        match self {
            GitOutcomeView::Staged(tree) => tree is Some,
            GitOutcomeView::Head(head) => head is Some,
            GitOutcomeView::Committed(commit) => commit is Some,
            GitOutcomeView::Pushed(taken) => taken,
        }
    }
}

impl View for GitOutcome {
    type V = GitOutcomeView;

    open spec fn view(&self) -> GitOutcomeView {
        match self {
            GitOutcome::Staged(tree) => GitOutcomeView::Staged(named(*tree)),
            GitOutcome::Head(head) => GitOutcomeView::Head(named(*head)),
            GitOutcome::Committed(commit) => GitOutcomeView::Committed(named(*commit)),
            GitOutcome::Pushed(taken) => GitOutcomeView::Pushed(*taken),
        }
    }
}

/// How far a transaction has come.
pub enum GitPhase {
    /// No transaction is under way.
    Ready,
    /// Staging was asked for.
    Staging,
    /// `tree` is staged; the branch tip was asked for.
    ResolvingHead { tree: Seq<char> },
    /// The commit of `tree` on `parent` was asked for.
    Committing { tree: Seq<char>, parent: Seq<char> },
    /// `commit` exists; the push was asked for.
    Pushing { commit: Seq<char> },
}

/// A commit that the transaction created, with the commit it was built on.
pub struct Link {
    pub commit: Seq<char>,
    pub parent: Seq<char>,
}

/// The transaction as contracts see it.
pub struct GitView {
    /// The remote that is pushed to.
    pub remote: Seq<char>,
    /// The ref-spec that is pushed by.
    pub refspec: Seq<char>,
    pub phase: GitPhase,
    /// The last commit created here, which the local branch points to.
    pub tip: Option<Seq<char>>,
    /// Every commit created here, oldest first.
    pub made: Seq<Link>,
}

impl GitView {
    /// The transaction once it has begun.
    pub open spec fn begun(self) -> GitView {
        GitView { phase: GitPhase::Staging, ..self }
    }

    /// The transaction at rest again.
    pub open spec fn ended(self) -> GitView {
        GitView { phase: GitPhase::Ready, ..self }
    }

    /// Whether `outcome` answers the action that is under way.
    pub open spec fn expects(self, outcome: GitOutcomeView) -> bool {
        match (self.phase, outcome) {
            (GitPhase::Staging, GitOutcomeView::Staged(_)) => true,
            (GitPhase::ResolvingHead { .. }, GitOutcomeView::Head(_)) => true,
            (GitPhase::Committing { .. }, GitOutcomeView::Committed(_)) => true,
            (GitPhase::Pushing { .. }, GitOutcomeView::Pushed(_)) => true,
            _ => false,
        }
    }

    /// The transaction after `outcome`, and the next action. `stamp` is the
    /// time that a commit made now is labelled with.
    ///
    /// Each step needs the one before it: without a staged tree no commit is
    /// asked for, without a branch tip neither, and without a commit no push.
    /// A commit that was created stays, whatever becomes of the push. Of an
    /// outcome that the transaction does not expect nothing is said here but
    /// that the transaction stays as it is.
    pub open spec fn resumed(self, outcome: GitOutcomeView, stamp: Timestamp) -> (
        GitView,
        GitStepView,
    ) {
        match (self.phase, outcome) {
            (GitPhase::Staging, GitOutcomeView::Staged(Some(tree))) => (
                GitView { phase: GitPhase::ResolvingHead { tree }, ..self },
                GitStepView::Next(GitActionView::ResolveHead),
            ),
            (GitPhase::Staging, GitOutcomeView::Staged(None)) => (
                self.ended(),
                GitStepView::Finished(Err(SyncError::StageFailed)),
            ),
            (GitPhase::ResolvingHead { tree }, GitOutcomeView::Head(Some(parent))) => if stamp.printable() {
                (
                    GitView { phase: GitPhase::Committing { tree, parent }, ..self },
                    GitStepView::Next(
                        GitActionView::Commit { tree, parent, message: commit_message_text(stamp) },
                    ),
                )
            } else {
                (self.ended(), GitStepView::Finished(Err(SyncError::CommitFailed)))
            },
            (GitPhase::ResolvingHead { .. }, GitOutcomeView::Head(None)) => (
                self.ended(),
                GitStepView::Finished(Err(SyncError::NoHeadCommit)),
            ),
            (GitPhase::Committing { parent, .. }, GitOutcomeView::Committed(Some(commit))) => (
                GitView {
                    phase: GitPhase::Pushing { commit },
                    tip: Some(commit),
                    made: self.made.push(Link { commit, parent }),
                    ..self
                },
                GitStepView::Next(
                    GitActionView::Push { remote: self.remote, refspec: self.refspec },
                ),
            ),
            (GitPhase::Committing { .. }, GitOutcomeView::Committed(None)) => (
                self.ended(),
                GitStepView::Finished(Err(SyncError::CommitFailed)),
            ),
            (GitPhase::Pushing { commit }, GitOutcomeView::Pushed(true)) => (
                self.ended(),
                GitStepView::Finished(Ok(commit)),
            ),
            (GitPhase::Pushing { .. }, GitOutcomeView::Pushed(false)) => (
                self.ended(),
                GitStepView::Finished(Err(SyncError::PushRejected)),
            ),
            _ => (self, GitStepView::Finished(Err(SyncError::CommitFailed))),
        }
    }
}

enum Phase {
    Ready,
    Staging,
    ResolvingHead { tree: ObjectId },
    Committing { tree: ObjectId, parent: ObjectId },
    Pushing { commit: ObjectId },
}

impl View for Phase {
    type V = GitPhase;

    closed spec fn view(&self) -> GitPhase {
        match self {
            Phase::Ready => GitPhase::Ready,
            Phase::Staging => GitPhase::Staging,
            Phase::ResolvingHead { tree } => GitPhase::ResolvingHead { tree: tree@ },
            Phase::Committing { tree, parent } => GitPhase::Committing {
                tree: tree@,
                parent: parent@,
            },
            Phase::Pushing { commit } => GitPhase::Pushing { commit: commit@ },
        }
    }
}

/// The state of the transaction against one repository.
pub struct Git {
    config: Config,
    phase: Phase,
    tip: Option<ObjectId>,
    made: Ghost<Seq<Link>>,
}

impl View for Git {
    type V = GitView;

    closed spec fn view(&self) -> GitView {
        GitView {
            remote: self.config.spec_remote(),
            refspec: self.config.spec_refs(),
            phase: self.phase@,
            tip: named(self.tip),
            made: self.made@,
        }
    }
}

impl Git {
    /// The transaction for the repository that `config` names, at rest, with
    /// no commit made yet.
    pub fn new(config: Config) -> (git: Git)
        ensures
            git@ == (GitView {
                remote: config.spec_remote(),
                refspec: config.spec_refs(),
                phase: GitPhase::Ready,
                tip: None,
                made: Seq::empty(),
            }),
    {
        Git { config, phase: Phase::Ready, tip: None, made: Ghost(Seq::empty()) }
    }

    /// Whether no transaction is under way.
    pub fn is_ready(&self) -> (ready: bool)
        ensures
            ready == (self@.phase is Ready),
    {
        match self.phase {
            Phase::Ready => true,
            _ => false,
        }
    }

    /// The last commit created here.
    pub fn tip(&self) -> (tip: Option<ObjectId>)
        ensures
            named(tip) == self@.tip,
    {
        match &self.tip {
            Some(id) => Some(id.duplicate()),
            None => None,
        }
    }

    /// Begins a transaction: the first action is to stage everything. While
    /// a transaction is under way none can begin, and nothing changes.
    pub fn add_all_and_commit_and_push(&mut self) -> (action: Option<GitAction>)
        ensures
            action is Some <==> old(self)@.phase is Ready,
            action matches Some(first) ==> first@ == GitActionView::StageAll && final(self)@ == old(
                self,
            )@.begun(),
            action is None ==> final(self)@ == old(self)@,
    {
        match self.phase {
            Phase::Ready => {
                self.phase = Phase::Staging;
                Some(GitAction::StageAll)
            },
            _ => None,
        }
    }

    /// Takes the outcome of the last action and says what to do next. A commit
    /// that is asked for is labelled with the time `stamp`. An outcome that
    /// does not answer the action under way is refused, and nothing changes.
    pub fn resume_at(&mut self, outcome: GitOutcome, stamp: &Timestamp) -> (step: Option<GitStep>)
        ensures
            step is Some <==> old(self)@.expects(outcome@),
            step matches Some(next) ==> (final(self)@, next@) == old(self)@.resumed(
                outcome@,
                *stamp,
            ),
            step is None ==> final(self)@ == old(self)@,
    {
        let mut phase = Phase::Ready;
        core::mem::swap(&mut self.phase, &mut phase);
        match (phase, outcome) {
            (Phase::Staging, GitOutcome::Staged(Some(tree))) => {
                self.phase = Phase::ResolvingHead { tree };
                Some(GitStep::Next(GitAction::ResolveHead))
            },
            (Phase::Staging, GitOutcome::Staged(None)) => {
                Some(GitStep::Finished(Err(SyncError::StageFailed)))
            },
            (Phase::ResolvingHead { tree }, GitOutcome::Head(Some(parent))) => {
                if stamp.is_printable() {
                    let message = commit_message(stamp);
                    let action = GitAction::Commit {
                        tree: tree.duplicate(),
                        parent: parent.duplicate(),
                        message,
                    };
                    self.phase = Phase::Committing { tree, parent };
                    Some(GitStep::Next(action))
                } else {
                    Some(GitStep::Finished(Err(SyncError::CommitFailed)))
                }
            },
            (Phase::ResolvingHead { .. }, GitOutcome::Head(None)) => {
                Some(GitStep::Finished(Err(SyncError::NoHeadCommit)))
            },
            (Phase::Committing { parent, .. }, GitOutcome::Committed(Some(commit))) => {
                self.made = Ghost(self.made@.push(Link { commit: commit@, parent: parent@ }));
                self.tip = Some(commit.duplicate());
                self.phase = Phase::Pushing { commit };
                Some(
                    GitStep::Next(
                        GitAction::Push {
                            remote: self.config.remote(),
                            refspec: self.config.refs(),
                        },
                    ),
                )
            },
            (Phase::Committing { .. }, GitOutcome::Committed(None)) => {
                Some(GitStep::Finished(Err(SyncError::CommitFailed)))
            },
            (Phase::Pushing { commit }, GitOutcome::Pushed(taken)) => {
                if taken {
                    Some(GitStep::Finished(Ok(commit)))
                } else {
                    Some(GitStep::Finished(Err(SyncError::PushRejected)))
                }
            },
            (other, _) => {
                self.phase = other;
                None
            },
        }
    }

    /// Takes the outcome of the last action and says what to do next, as
    /// `resume_at` does, with the time read from the clock.
    pub fn resume(&mut self, outcome: GitOutcome) -> (step: Option<GitStep>)
        ensures
            step is Some <==> old(self)@.expects(outcome@),
            step matches Some(next) ==> exists|stamp: Timestamp|
                (final(self)@, next@) == #[trigger] old(self)@.resumed(outcome@, stamp),
            step is None ==> final(self)@ == old(self)@,
    {
        let stamp = Timestamp::now();
        self.resume_at(outcome, &stamp)
    }
}


/// Each step of a transaction needs the one before it: the branch tip is
/// asked for only after staging has written a tree, a commit only after the
/// tip was found, a push only after the commit was created. A transaction
/// ends exactly where it asks for nothing more, a failure changes nothing
/// but that, and no commit that was made is forgotten.
pub proof fn lemma_each_step_needs_the_last(
    git: GitView,
    outcome: GitOutcomeView,
    stamp: Timestamp,
)
    requires
        git.expects(outcome),
    ensures
        ({
            let (next, step) = git.resumed(outcome, stamp);
            &&& step.asks() is Some ==> !(step.asks() == Some(GitActionView::StageAll))
            &&& step.asks() is Some ==> outcome.succeeded()
            &&& step.asks() == Some(GitActionView::ResolveHead) ==> git.phase is Staging
            &&& step.asks() matches Some(GitActionView::Commit { .. }) ==> git.phase is ResolvingHead
            &&& step.asks() matches Some(GitActionView::Push { .. }) ==> git.phase is Committing
            &&& step is Finished <==> next.phase is Ready
            &&& step matches GitStepView::Finished(Err(_)) ==> next == git.ended()
            &&& git.made.is_prefix_of(next.made)
        }),
{
    let (next, step) = git.resumed(outcome, stamp);
    assert(next.made =~= git.made || next.made.drop_last() =~= git.made);
}

/// A transaction whose staging and commit succeed moves the local branch on
/// by exactly the commit that was created, on top of the tip that was found,
/// and then attempts the push. That holds whether or not the remote takes the
/// push: a rejected push leaves the commit in place and the transaction at
/// rest, so that the next one can begin and push in its turn.
pub proof fn lemma_sync_advances_tip(
    git: GitView,
    tree: Seq<char>,
    head: Seq<char>,
    commit: Seq<char>,
    stamp: Timestamp,
    taken: bool,
)
    requires
        git.phase is Ready,
        stamp.printable(),
    ensures
        ({
            let staged = git.begun().resumed(GitOutcomeView::Staged(Some(tree)), stamp);
            let resolved = staged.0.resumed(GitOutcomeView::Head(Some(head)), stamp);
            let committed = resolved.0.resumed(GitOutcomeView::Committed(Some(commit)), stamp);
            let done = committed.0.resumed(GitOutcomeView::Pushed(taken), stamp);
            &&& staged.1 == GitStepView::Next(GitActionView::ResolveHead)
            &&& resolved.1 == GitStepView::Next(
                GitActionView::Commit { tree, parent: head, message: commit_message_text(stamp) },
            )
            &&& committed.1 == GitStepView::Next(
                GitActionView::Push { remote: git.remote, refspec: git.refspec },
            )
            &&& done.1 == GitStepView::Finished(
                if taken {
                    Ok(commit)
                } else {
                    Err(SyncError::PushRejected)
                },
            )
            &&& done.0.phase is Ready
            &&& done.0.tip == Some(commit)
            &&& done.0.made == git.made.push(Link { commit, parent: head })
        }),
{
}

} // verus!
