//! The driver: one sequential loop that takes change events in, mirrors a
//! batch into the working tree and commits after it. The loop decides; the
//! caller waits, touches the file system and the repository, and reports.

use crate::clock::Timestamp;
use crate::config::Config;
use crate::debounce::{lemma_create_then_remove_cancels, Debouncer, DebouncerView};
use crate::error::{IoFailure, SyncError};
use crate::event::{changes, Change, ChangeEvent};
use crate::git::{
    lemma_each_step_needs_the_last, named, Git, GitAction, GitActionView, GitOutcome,
    GitOutcomeView, GitPhase, GitStep, GitStepView, GitView, ObjectId,
};
use crate::mirror::{
    lemma_command_stays_inside, lemma_plan_paired_up, lemma_plan_within, mirrors, paired_up,
    plan_batch, planned_ops, refused, Command, FsCommand, Mirror, MirrorOp,
};
use crate::path::{below, components, texts};
use vstd::prelude::*;

verus! {

/// The quiescence window in milliseconds.
pub const QUIESCENCE_MS: u64 = 2000;

/// Where the loop stands.
#[derive(Clone, Copy, Debug, PartialEq, Eq, Structural)]
pub enum Stage {
    /// Waiting for events, or for the window of a burst to pass.
    Idle,
    /// Mirroring: the kind of the next path was asked for.
    Probing,
    /// Mirroring: a file system command is being carried out.
    Applying,
    /// The repository transaction is under way.
    Committing,
}

/// The three states of the loop.
#[derive(Clone, Copy, Debug, PartialEq, Eq, Structural)]
pub enum LoopState {
    Idle,
    Mirroring,
    Committing,
}

impl Stage {
    /// The state that the stage belongs to.
    pub open spec fn state(self) -> LoopState {
        match self {
            Stage::Idle => LoopState::Idle,
            Stage::Probing => LoopState::Mirroring,
            Stage::Applying => LoopState::Mirroring,
            Stage::Committing => LoopState::Committing,
        }
    }
}

/// What the caller reports to the loop.
#[derive(Debug)]
pub enum Input {
    /// The notification source reported `event` at the time `now`.
    Notified { event: ChangeEvent, now: u64 },
    /// The wait ended at the time `now` without an event.
    Tick { now: u64 },
    /// Whether the probed path is a directory.
    Probed { is_dir: bool },
    /// How the file system command went.
    Applied { result: Result<(), IoFailure> },
    /// How the repository action went.
    Repo { outcome: GitOutcome },
}

/// An input as contracts see it.
pub enum InputView {
    Notified { event: Change, now: u64 },
    Tick { now: u64 },
    Probed { is_dir: bool },
    Applied { result: Result<(), IoFailure> },
    Repo { outcome: GitOutcomeView },
}

impl View for Input {
    type V = InputView;

    open spec fn view(&self) -> InputView {
        match self {
            Input::Notified { event, now } => InputView::Notified { event: event@, now: *now },
            Input::Tick { now } => InputView::Tick { now: *now },
            Input::Probed { is_dir } => InputView::Probed { is_dir: *is_dir },
            Input::Applied { result } => InputView::Applied { result: *result },
            Input::Repo { outcome } => InputView::Repo { outcome: outcome@ },
        }
    }
}

/// What the loop asks of the caller.
#[derive(Debug)]
pub enum Action {
    /// Wait for the next event, but no longer than until the time `until`.
    Wait { until: Option<u64> },
    /// Find out whether `path` is a directory.
    Probe { path: String },
    /// Carry out `command`.
    Apply { command: FsCommand },
    /// Carry out `action` on the repository.
    Repo { action: GitAction },
}

/// An action as contracts see it.
pub enum ActionView {
    Wait { until: Option<u64> },
    Probe { path: Seq<char> },
    Apply { command: Command },
    Repo { action: GitActionView },
}

impl View for Action {
    type V = ActionView;

    open spec fn view(&self) -> ActionView {
        match self {
            Action::Wait { until } => ActionView::Wait { until: *until },
            Action::Probe { path } => ActionView::Probe { path: path@ },
            Action::Apply { command } => ActionView::Apply { command: command@ },
            Action::Repo { action } => ActionView::Repo { action: action@ },
        }
    }
}

/// One step of the loop: what to do next, and what there is to log.
#[derive(Debug)]
pub struct Step {
    pub action: Action,
    /// The failure of the stage that has just ended, if it failed.
    pub failure: Option<SyncError>,
    /// How many events of the batch were refused for their paths.
    pub rejected: usize,
    /// The commit of the transaction that has just ended, if it made one and
    /// pushed it.
    pub committed: Option<ObjectId>,
}

/// A step as contracts see it.
pub struct StepView {
    pub action: ActionView,
    pub failure: Option<SyncError>,
    pub rejected: nat,
    pub committed: Option<Seq<char>>,
}

impl View for Step {
    type V = StepView;

    open spec fn view(&self) -> StepView {
        StepView {
            action: self.action@,
            failure: self.failure,
            rejected: self.rejected as nat,
            committed: named(self.committed),
        }
    }
}

/// The loop as contracts see it.
pub struct LoopView {
    /// The watch roots, in the order in which they map paths.
    pub roots: Seq<Seq<char>>,
    /// The root of the working tree.
    pub repo: Seq<char>,
    pub debouncer: DebouncerView,
    pub git: GitView,
    pub stage: Stage,
    /// The mutations of the batch that is being mirrored.
    pub ops: Seq<Mirror>,
    /// The position in `ops` of the mutation that is being applied.
    pub cursor: nat,
}

impl LoopView {
    /// What always holds of a loop: a transaction is under way exactly while
    /// the loop is committing, while it is mirroring there is a mutation at
    /// the cursor, no mutation reaches outside the working tree, and every
    /// removal that opens a rename has the copy of the rename behind it.
    pub open spec fn wf(self) -> bool {
        &&& match self.stage {
            Stage::Idle => self.git.phase is Ready,
            Stage::Probing => self.git.phase is Ready && self.cursor < self.ops.len(),
            Stage::Applying => self.git.phase is Ready && self.cursor < self.ops.len(),
            Stage::Committing => !(self.git.phase is Ready),
        }
        &&& forall|i: int| 0 <= i < self.ops.len() ==> (#[trigger] self.ops[i]).within(self.repo)
        &&& paired_up(self.ops)
    }

    /// Where the batch goes on once the mutation at the cursor has been
    /// settled with `failure`: at the next mutation, or behind it where the
    /// removal that opens a rename has failed. The copy of that rename is
    /// never asked for.
    pub open spec fn following(self, failure: Option<SyncError>) -> nat {
        if failure is Some && self.ops[self.cursor as int].leads() {
            self.cursor + 2
        } else {
            self.cursor + 1
        }
    }

    /// How many answers the loop needs at most until it is idle again.
    pub open spec fn answers_left(self) -> nat {
        match self.stage {
            Stage::Idle => 0,
            Stage::Probing => (2 * (self.ops.len() - self.cursor) + 4) as nat,
            Stage::Applying => (2 * (self.ops.len() - self.cursor) + 3) as nat,
            Stage::Committing => match self.git.phase {
                GitPhase::Ready => 0,
                GitPhase::Staging => 4,
                GitPhase::ResolvingHead { .. } => 3,
                GitPhase::Committing { .. } => 2,
                GitPhase::Pushing { .. } => 1,
            },
        }
    }

    /// Whether `input` answers what the loop is waiting for.
    pub open spec fn accepts(self, input: InputView) -> bool {
        match (self.stage, input) {
            (Stage::Idle, InputView::Notified { .. }) => true,
            (Stage::Idle, InputView::Tick { .. }) => true,
            (Stage::Probing, InputView::Probed { .. }) => true,
            (Stage::Applying, InputView::Applied { .. }) => true,
            (Stage::Committing, InputView::Repo { outcome }) => self.git.expects(outcome),
            _ => false,
        }
    }

    /// The step that only waits: for the next event, or for the window of the
    /// burst under way.
    pub open spec fn waiting(self) -> StepView {
        StepView {
            action: ActionView::Wait { until: self.debouncer.deadline() },
            failure: None,
            rejected: 0,
            committed: None,
        }
    }

    /// The loop as it begins the repository transaction.
    pub open spec fn committing(self, failure: Option<SyncError>, rejected: nat) -> (
        LoopView,
        StepView,
    ) {
        (
            LoopView {
                stage: Stage::Committing,
                git: self.git.begun(),
                ops: Seq::empty(),
                cursor: 0,
                ..self
            },
            StepView {
                action: ActionView::Repo { action: GitActionView::StageAll },
                failure,
                rejected,
                committed: None,
            },
        )
    }

    /// The idle loop as it takes up `batch`. An empty batch is not taken up. A
    /// batch without mutations goes straight to the transaction.
    pub open spec fn dispatched(self, batch: Seq<Change>) -> (LoopView, StepView) {
        if batch.len() == 0 {
            (self, self.waiting())
        } else {
            let ops = planned_ops(batch, self.roots, self.repo);
            let rejected = refused(batch, self.roots, self.repo);
            if ops.len() == 0 {
                self.committing(None, rejected)
            } else {
                (
                    LoopView { stage: Stage::Probing, ops, cursor: 0, ..self },
                    StepView {
                        action: ActionView::Probe { path: ops[0].probe() },
                        failure: None,
                        rejected,
                        committed: None,
                    },
                )
            }
        }
    }

    /// The loop after `input`, and the step that it answers with. `stamp` is
    /// the time that a commit made now is labelled with.
    pub open spec fn stepped(self, input: InputView, stamp: Timestamp) -> (LoopView, StepView) {
        match (self.stage, input) {
            (Stage::Idle, InputView::Notified { event, now }) => if self.debouncer.due(now) {
                (LoopView {
                    debouncer: self.debouncer.rested().offered(event, now),
                    ..self
                }).dispatched(self.debouncer.pending)
            } else {
                let next = LoopView { debouncer: self.debouncer.offered(event, now), ..self };
                (next, next.waiting())
            },
            (Stage::Idle, InputView::Tick { now }) => if self.debouncer.due(now) {
                (LoopView { debouncer: self.debouncer.rested(), ..self }).dispatched(
                    self.debouncer.pending,
                )
            } else {
                (self, self.waiting())
            },
            (Stage::Probing, InputView::Probed { is_dir }) => (
                LoopView { stage: Stage::Applying, ..self },
                StepView {
                    action: ActionView::Apply {
                        command: self.ops[self.cursor as int].command(is_dir),
                    },
                    failure: None,
                    rejected: 0,
                    committed: None,
                },
            ),
            (Stage::Applying, InputView::Applied { result }) => {
                let failure = self.ops[self.cursor as int].settled(result);
                let next = self.following(failure);
                if next < self.ops.len() {
                    (
                        LoopView { stage: Stage::Probing, cursor: next, ..self },
                        StepView {
                            action: ActionView::Probe { path: self.ops[next as int].probe() },
                            failure,
                            rejected: 0,
                            committed: None,
                        },
                    )
                } else {
                    self.committing(failure, 0)
                }
            },
            (Stage::Committing, InputView::Repo { outcome }) => {
                let (git, step) = self.git.resumed(outcome, stamp);
                match step {
                    GitStepView::Finished(result) => {
                        let next = LoopView { stage: Stage::Idle, git, ..self };
                        (
                            next,
                            StepView {
                                action: ActionView::Wait { until: next.debouncer.deadline() },
                                failure: match result {
                                    Ok(_) => None,
                                    Err(e) => Some(e),
                                },
                                rejected: 0,
                                committed: match result {
                                    Ok(commit) => Some(commit),
                                    Err(_) => None,
                                },
                            },
                        )
                    },
                    GitStepView::Next(action) => (
                        LoopView { git, ..self },
                        StepView {
                            action: ActionView::Repo { action },
                            failure: None,
                            rejected: 0,
                            committed: None,
                        },
                    ),
                }
            },
            _ => (self, self.waiting()),
        }
    }
}

/// The synchronisation loop for one set-up.
pub struct SyncLoop {
    roots: Vec<String>,
    repo: String,
    debouncer: Debouncer,
    git: Git,
    stage: Stage,
    ops: Vec<MirrorOp>,
    cursor: usize,
}

impl View for SyncLoop {
    type V = LoopView;

    closed spec fn view(&self) -> LoopView {
        LoopView {
            roots: texts(self.roots@),
            repo: self.repo@,
            debouncer: self.debouncer@,
            git: self.git@,
            stage: self.stage,
            ops: mirrors(self.ops@),
            cursor: self.cursor as nat,
        }
    }
}

impl SyncLoop {
    #[verifier::type_invariant]
    spec fn sound(&self) -> bool {
        self@.wf()
    }

    /// The idle loop for `config`, with nothing pending and no commit made.
    pub fn new(config: Config) -> (sync: SyncLoop)
        ensures
            sync@.wf(),
            sync@ == (LoopView {
                roots: config.spec_files_to_watch(),
                repo: config.spec_destination_repo(),
                debouncer: DebouncerView {
                    window: QUIESCENCE_MS,
                    opened: None,
                    pending: Seq::empty(),
                },
                git: GitView {
                    remote: config.spec_remote(),
                    refspec: config.spec_refs(),
                    phase: GitPhase::Ready,
                    tip: None,
                    made: Seq::empty(),
                },
                stage: Stage::Idle,
                ops: Seq::empty(),
                cursor: 0,
            }),
    {
        let roots = config.files_to_watch();
        let repo = config.destination_repo();
        let ops: Vec<MirrorOp> = Vec::new();
        assert(mirrors(ops@) =~= Seq::<Mirror>::empty());
        SyncLoop {
            roots,
            repo,
            debouncer: Debouncer::new(QUIESCENCE_MS),
            git: Git::new(config),
            stage: Stage::Idle,
            ops,
            cursor: 0,
        }
    }

    /// Where the loop stands.
    pub fn stage(&self) -> (stage: Stage)
        ensures
            stage == self@.stage,
    {
        self.stage
    }

    /// The last commit that the loop created.
    pub fn tip(&self) -> (tip: Option<ObjectId>)
        ensures
            named(tip) == self@.git.tip,
    {
        self.git.tip()
    }

    /// The loop at `stage` over the given parts.
    fn assemble(
        roots: Vec<String>,
        repo: String,
        debouncer: Debouncer,
        git: Git,
        stage: Stage,
        ops: Vec<MirrorOp>,
        cursor: usize,
    ) -> (sync: SyncLoop)
        requires
            (LoopView {
                roots: texts(roots@),
                repo: repo@,
                debouncer: debouncer@,
                git: git@,
                stage,
                ops: mirrors(ops@),
                cursor: cursor as nat,
            }).wf(),
        ensures
            sync@ == (LoopView {
                roots: texts(roots@),
                repo: repo@,
                debouncer: debouncer@,
                git: git@,
                stage,
                ops: mirrors(ops@),
                cursor: cursor as nat,
            }),
    {
        SyncLoop { roots, repo, debouncer, git, stage, ops, cursor }
    }

    fn wait(self) -> (next: (SyncLoop, Step))
        requires
            self@.stage is Idle,
        ensures
            next.0@ == self@,
            next.1@ == self@.waiting(),
    {
        let until = self.debouncer.deadline();
        (self, Step { action: Action::Wait { until }, failure: None, rejected: 0, committed: None })
    }

    fn commit(self, failure: Option<SyncError>, rejected: usize) -> (next: (SyncLoop, Step))
        requires
            self@.git.phase is Ready,
        ensures
            (next.0@, next.1@) == self@.committing(failure, rejected as nat),
    {
        let SyncLoop { roots, repo, debouncer, git, .. } = self;
        let mut git = git;
        let first = git.add_all_and_commit_and_push().unwrap();
        let ops: Vec<MirrorOp> = Vec::new();
        assert(mirrors(ops@) =~= Seq::<Mirror>::empty());
        (
            SyncLoop::assemble(roots, repo, debouncer, git, Stage::Committing, ops, 0),
            Step { action: Action::Repo { action: first }, failure, rejected, committed: None },
        )
    }

    fn dispatch(self, batch: Option<Vec<ChangeEvent>>) -> (next: (SyncLoop, Step))
        requires
            self@.stage is Idle,
            batch matches Some(events) ==> events@.len() > 0,
        ensures
            (next.0@, next.1@) == self@.dispatched(
                match batch {
                    Some(events) => changes(events@),
                    None => Seq::empty(),
                },
            ),
    {
        proof {
            use_type_invariant(&self);
        }
        match batch {
            Some(events) => {
                let plan = plan_batch(&events, &self.roots, self.repo.as_str());
                proof {
                    lemma_plan_within(changes(events@), texts(self.roots@), self.repo@);
                    lemma_plan_paired_up(changes(events@), texts(self.roots@), self.repo@);
                }
                if plan.ops.len() == 0 {
                    self.commit(None, plan.rejected)
                } else {
                    let SyncLoop { roots, repo, debouncer, git, .. } = self;
                    let path = plan.ops[0].probe();
                    (
                        SyncLoop::assemble(
                            roots,
                            repo,
                            debouncer,
                            git,
                            Stage::Probing,
                            plan.ops,
                            0,
                        ),
                        Step {
                            action: Action::Probe { path },
                            failure: None,
                            rejected: plan.rejected,
                            committed: None,
                        },
                    )
                }
            },
            None => self.wait(),
        }
    }

    fn advance(self, input: Input, stamp: &Timestamp) -> (next: (SyncLoop, Option<Step>))
        ensures
            self@.wf(),
            next.1 is Some <==> self@.accepts(input@),
            next.1 matches Some(s) ==> (next.0@, s@) == self@.stepped(input@, *stamp),
            next.1 is None ==> next.0@ == self@,
    {
        proof {
            use_type_invariant(&self);
        }
        let ghost before = self@;
        let SyncLoop { roots, repo, debouncer, git, stage, ops, cursor } = self;
        assert(before.ops == mirrors(ops@) && before.repo == repo@);
        match (stage, input) {
            (Stage::Idle, Input::Notified { event, now }) => {
                let mut debouncer = debouncer;
                let batch = debouncer.release(now);
                debouncer.offer(event, now);
                let (sync, step) = SyncLoop::assemble(
                    roots,
                    repo,
                    debouncer,
                    git,
                    stage,
                    ops,
                    cursor,
                ).dispatch(batch);
                (sync, Some(step))
            },
            (Stage::Idle, Input::Tick { now }) => {
                let mut debouncer = debouncer;
                let batch = debouncer.release(now);
                let (sync, step) = SyncLoop::assemble(
                    roots,
                    repo,
                    debouncer,
                    git,
                    stage,
                    ops,
                    cursor,
                ).dispatch(batch);
                (sync, Some(step))
            },
            (Stage::Probing, Input::Probed { is_dir }) => {
                let command = ops[cursor].command(is_dir);
                (
                    SyncLoop::assemble(roots, repo, debouncer, git, Stage::Applying, ops, cursor),
                    Some(
                        Step {
                            action: Action::Apply { command },
                            failure: None,
                            rejected: 0,
                            committed: None,
                        },
                    ),
                )
            },
            (Stage::Applying, Input::Applied { result }) => {
                let total = ops.len();
                assert(mirrors(ops@).len() == total);
                assert(mirrors(ops@)[cursor as int] == ops@[cursor as int]@);
                let failure = ops[cursor].settle(result);
                let next = if failure.is_some() && ops[cursor].leads() {
                    cursor + 2
                } else {
                    cursor + 1
                };
                if next < total {
                    let path = ops[next].probe();
                    (
                        SyncLoop::assemble(
                            roots,
                            repo,
                            debouncer,
                            git,
                            Stage::Probing,
                            ops,
                            next,
                        ),
                        Some(
                            Step {
                                action: Action::Probe { path },
                                failure,
                                rejected: 0,
                                committed: None,
                            },
                        ),
                    )
                } else {
                    let (sync, step) = SyncLoop::assemble(
                        roots,
                        repo,
                        debouncer,
                        git,
                        stage,
                        ops,
                        cursor,
                    ).commit(failure, 0);
                    (sync, Some(step))
                }
            },
            (Stage::Committing, Input::Repo { outcome }) => {
                let mut git = git;
                match git.resume_at(outcome, stamp) {
                    Some(GitStep::Finished(result)) => {
                        let until = debouncer.deadline();
                        let sync = SyncLoop::assemble(
                            roots,
                            repo,
                            debouncer,
                            git,
                            Stage::Idle,
                            ops,
                            cursor,
                        );
                        match result {
                            Ok(commit) => (
                                sync,
                                Some(
                                    Step {
                                        action: Action::Wait { until },
                                        failure: None,
                                        rejected: 0,
                                        committed: Some(commit),
                                    },
                                ),
                            ),
                            Err(e) => (
                                sync,
                                Some(
                                    Step {
                                        action: Action::Wait { until },
                                        failure: Some(e),
                                        rejected: 0,
                                        committed: None,
                                    },
                                ),
                            ),
                        }
                    },
                    Some(GitStep::Next(action)) => (
                        SyncLoop::assemble(roots, repo, debouncer, git, stage, ops, cursor),
                        Some(
                            Step {
                                action: Action::Repo { action },
                                failure: None,
                                rejected: 0,
                                committed: None,
                            },
                        ),
                    ),
                    None => (
                        SyncLoop::assemble(roots, repo, debouncer, git, stage, ops, cursor),
                        None,
                    ),
                }
            },
            (stage, _) => (
                SyncLoop::assemble(roots, repo, debouncer, git, stage, ops, cursor),
                None,
            ),
        }
    }

    /// A loop to stand in for the one that is being advanced.
    fn stand_in() -> (sync: SyncLoop)
        ensures
            sync@ == (LoopView {
                roots: Seq::empty(),
                repo: Seq::empty(),
                debouncer: DebouncerView {
                    window: QUIESCENCE_MS,
                    opened: None,
                    pending: Seq::empty(),
                },
                git: GitView {
                    remote: Seq::empty(),
                    refspec: Seq::empty(),
                    phase: GitPhase::Ready,
                    tip: None,
                    made: Seq::empty(),
                },
                stage: Stage::Idle,
                ops: Seq::empty(),
                cursor: 0,
            }),
    {
        let roots: Vec<String> = Vec::new();
        assert(texts(roots@) =~= Seq::<Seq<char>>::empty());
        let nothing = Config::new(roots, String::new(), String::new(), String::new());
        SyncLoop::new(nothing)
    }

    /// Takes one input and answers with the next step. The commit that a
    /// step asks for is labelled with the time `stamp`. An input that does
    /// not answer what the loop waits for is refused, and nothing changes.
    pub fn step_at(&mut self, input: Input, stamp: &Timestamp) -> (step: Option<Step>)
        ensures
            old(self)@.wf(),
            final(self)@.wf(),
            step is Some <==> old(self)@.accepts(input@),
            step matches Some(s) ==> (final(self)@, s@) == old(self)@.stepped(input@, *stamp),
            step is None ==> final(self)@ == old(self)@,
    {
        let mut current = SyncLoop::stand_in();
        core::mem::swap(self, &mut current);
        let (next, step) = current.advance(input, stamp);
        proof {
            use_type_invariant(&next);
        }
        *self = next;
        step
    }

    /// Takes one input and answers with the next step, as `step_at` does,
    /// with the time read from the clock.
    pub fn step(&mut self, input: Input) -> (step: Option<Step>)
        ensures
            old(self)@.wf(),
            final(self)@.wf(),
            step is Some <==> old(self)@.accepts(input@),
            step matches Some(s) ==> exists|stamp: Timestamp|
                (final(self)@, s@) == #[trigger] old(self)@.stepped(input@, stamp),
            step is None ==> final(self)@ == old(self)@,
    {
        let stamp = Timestamp::now();
        self.step_at(input, &stamp)
    }
}

/// A step that is accepted keeps the loop well formed and moves it along the
/// cycle only: from idle to mirroring or committing, from mirroring to
/// committing, from committing back to idle. Only a step of the transaction
/// changes what the repository holds.
pub proof fn lemma_cycle(sync: LoopView, input: InputView, stamp: Timestamp)
    requires
        sync.wf(),
        sync.accepts(input),
    ensures
        ({
            let (next, step) = sync.stepped(input, stamp);
            &&& next.wf()
            &&& sync.stage.state() is Mirroring ==> !(next.stage.state() is Idle)
            &&& sync.stage.state() is Committing ==> !(next.stage.state() is Mirroring)
            &&& step.action is Wait <==> next.stage is Idle
            &&& step.action is Probe <==> next.stage is Probing
            &&& step.action is Apply <==> next.stage is Applying
            &&& step.action is Repo <==> next.stage is Committing
            &&& !(sync.stage is Committing) ==> next.git.made == sync.git.made
        }),
{
    lemma_plan_within(sync.debouncer.pending, sync.roots, sync.repo);
    lemma_plan_paired_up(sync.debouncer.pending, sync.roots, sync.repo);
    match input {
        InputView::Repo { outcome } => {
            lemma_each_step_needs_the_last(sync.git, outcome, stamp);
        },
        _ => {},
    }
}

/// A batch that is taken up is brought to its end: while the loop is not
/// idle, every answer brings it nearer to idle, by at least one of the
/// answers that are left.
pub proof fn lemma_cycle_completes(sync: LoopView, input: InputView, stamp: Timestamp)
    requires
        sync.wf(),
        sync.accepts(input),
        !(sync.stage is Idle),
    ensures
        sync.stepped(input, stamp).0.answers_left() < sync.answers_left(),
        sync.stepped(input, stamp).0.answers_left() == 0 <==> sync.stepped(
            input,
            stamp,
        ).0.stage is Idle,
{
    lemma_cycle(sync, input, stamp);
}

/// No command that the loop hands out reaches outside the working tree: the
/// entry that it creates, replaces or deletes lies strictly inside.
pub proof fn lemma_commands_stay_inside(sync: LoopView, input: InputView, stamp: Timestamp)
    requires
        sync.wf(),
        sync.accepts(input),
    ensures
        sync.stepped(input, stamp).1.action matches ActionView::Apply { command } ==> below(
            command.target(),
            components(sync.repo),
        ),
{
    match input {
        InputView::Probed { is_dir } => {
            lemma_command_stays_inside(sync.ops[sync.cursor as int], sync.repo, is_dir);
        },
        InputView::Repo { outcome } => {
            lemma_each_step_needs_the_last(sync.git, outcome, stamp);
        },
        _ => {},
    }
}

/// A creation followed within the window by a removal of the same path
/// leaves the pending batch as it was, and the loop does nothing but wait.
/// Where nothing else was pending, nothing is done when the window has
/// passed either: no mutation of the working tree and no commit.
pub proof fn lemma_create_then_remove_is_silent(
    sync: LoopView,
    path: Seq<char>,
    first: u64,
    second: u64,
    later: u64,
    stamp: Timestamp,
)
    requires
        sync.wf(),
        sync.stage is Idle,
        !sync.debouncer.due(first),
        !sync.debouncer.offered(Change::Created(path), first).due(second),
    ensures
        ({
            let created = sync.stepped(
                InputView::Notified { event: Change::Created(path), now: first },
                stamp,
            );
            let removed = created.0.stepped(
                InputView::Notified { event: Change::Removed(path), now: second },
                stamp,
            );
            let ticked = removed.0.stepped(InputView::Tick { now: later }, stamp);
            &&& created.1.action is Wait
            &&& removed.1.action is Wait
            &&& removed.0.stage is Idle
            &&& removed.0.git == sync.git
            &&& removed.0.debouncer.pending == sync.debouncer.pending
            &&& sync.debouncer.pending.len() == 0 ==> {
                &&& ticked.1.action is Wait
                &&& ticked.1.failure is None
                &&& ticked.0.stage is Idle
                &&& ticked.0.git == sync.git
            }
        }),
{
    lemma_create_then_remove_cancels(sync.debouncer.pending, path);
}

/// A mutation that fails does not end the batch: the loop reports the
/// failure and goes on with the mutations of the other events, or with the
/// transaction where none is left. Only the copy of a rename is passed over
/// with the removal that failed before it.
pub proof fn lemma_io_failure_does_not_abort(
    sync: LoopView,
    failure: IoFailure,
    stamp: Timestamp,
)
    requires
        sync.wf(),
        sync.stage is Applying,
    ensures
        ({
            let (next, step) = sync.stepped(InputView::Applied { result: Err(failure) }, stamp);
            let op = sync.ops[sync.cursor as int];
            let on = sync.following(op.settled(Err(failure)));
            &&& step.failure == op.settled(Err(failure))
            &&& on == if step.failure is Some && op.leads() {
                sync.cursor + 2
            } else {
                sync.cursor + 1
            }
            &&& if on < sync.ops.len() {
                &&& next.stage is Probing
                &&& next.cursor == on
                &&& next.ops == sync.ops
                &&& step.action == ActionView::Probe { path: sync.ops[on as int].probe() }
            } else {
                &&& next.stage is Committing
                &&& step.action == ActionView::Repo { action: GitActionView::StageAll }
            }
        }),
{
}

/// The copy of a rename is made only once the removal of the rename has done
/// its work. Where the removal succeeded or found nothing to remove, the
/// copy is what the loop turns to next. Where the removal failed, the
/// failure is reported and the copy is never asked for: the loop goes on
/// behind it, or to the transaction where nothing is left.
pub proof fn lemma_rename_copies_after_removal(
    sync: LoopView,
    result: Result<(), IoFailure>,
    stamp: Timestamp,
)
    requires
        sync.wf(),
        sync.stage is Applying,
        sync.ops[sync.cursor as int].leads(),
    ensures
        ({
            let (next, step) = sync.stepped(InputView::Applied { result }, stamp);
            let copy = sync.cursor as int + 1;
            &&& copy < sync.ops.len()
            &&& sync.ops[copy] is CopyInto
            &&& step.failure is None <==> result is Ok || result == Err::<(), IoFailure>(
                IoFailure::NotFound,
            )
            &&& step.failure is None ==> {
                &&& next.stage is Probing
                &&& next.cursor == copy
                &&& step.action == ActionView::Probe { path: sync.ops[copy].probe() }
            }
            &&& step.failure is Some ==> {
                &&& next.ops == sync.ops || next.ops.len() == 0
                &&& next.stage is Probing ==> next.cursor == copy + 1
                &&& !(next.stage is Probing) ==> next.stage is Committing && step.action
                    == ActionView::Repo { action: GitActionView::StageAll }
            }
        }),
{
}

/// A step of the transaction that fails ends the cycle: the loop reports the
/// failure and waits again.
pub proof fn lemma_commit_failure_returns_to_idle(
    sync: LoopView,
    outcome: GitOutcomeView,
    stamp: Timestamp,
)
    requires
        sync.wf(),
        sync.stage is Committing,
        sync.git.expects(outcome),
        !outcome.succeeded(),
    ensures
        ({
            let (next, step) = sync.stepped(InputView::Repo { outcome }, stamp);
            &&& next.stage is Idle
            &&& step.action is Wait
            &&& step.failure is Some
            &&& step.committed is None
            &&& next.git.made == sync.git.made
        }),
{
}

/// A batch that is not empty always ends in a transaction: it is taken up,
/// and with no mutation to apply the transaction begins at once.
pub proof fn lemma_batch_is_committed(sync: LoopView, batch: Seq<Change>)
    requires
        sync.wf(),
        sync.stage is Idle,
        batch.len() > 0,
    ensures
        ({
            let (next, step) = sync.dispatched(batch);
            &&& !(next.stage is Idle)
            &&& planned_ops(batch, sync.roots, sync.repo).len() == 0 ==> step.action
                == ActionView::Repo { action: GitActionView::StageAll }
        }),
{
}

} // verus!
