//! The control of one run: which model is served next, with which variant,
//! under which progress number, and what becomes of each answer.
//!
//! The run itself (loading a model, asking it, writing a record down) is the
//! caller's work. The caller asks [`Job::action`] what to do, does it, and
//! reports what came of it to [`Job::advance`], until the action is to finish.
//!
//! A job is checked when it is made: an architecture tag that is not known
//! refuses the whole job before anything is loaded or asked. The models are
//! then served in their order, the local ones before the remote ones. A model
//! that is marked to be skipped is never loaded or asked and has no part in
//! the count of runs. Where loading or asking a local model fails, no local
//! model is served any more; where asking a remote model fails, no remote
//! model is served any more. The models of the other kind are served all the
//! same.

use crate::local;
use crate::output::{Record, RunOutput};
use crate::remote;
use crate::text::{render, render_text};
use crate::variants::{choices, lemma_empty_variable_no_variants, product};
use vstd::prelude::*;

verus! {

/// A model that prompts are run against, of one of the two kinds.
pub enum Backend {
    Local(local::ModelConfig),
    Remote(remote::ModelConfig),
}

impl Backend {
    /// Whether the run leaves this model out.
    pub open spec fn skipped(&self) -> bool {
        match self {
            Backend::Local(config) => config.skip,
            Backend::Remote(config) => config.skip,
        }
    }

    /// Whether the model runs in this process.
    pub open spec fn local(&self) -> bool {
        self is Local
    }

    /// The name under which the model's records are written.
    pub open spec fn name(&self) -> Seq<char> {
        match self {
            Backend::Local(config) => config.path@,
            Backend::Remote(config) => config.name@,
        }
    }

    /// Whether the run leaves this model out.
    pub fn is_skipped(&self) -> (skip: bool)
        ensures
            skip == self.skipped(),
    {
        match self {
            Backend::Local(config) => config.skip,
            Backend::Remote(config) => config.skip,
        }
    }

    /// Whether the model runs in this process.
    pub fn is_local(&self) -> (local: bool)
        ensures
            local == self.local(),
    {
        match self {
            Backend::Local(_) => true,
            Backend::Remote(_) => false,
        }
    }

    /// The name under which the model's records are written.
    pub fn label(&self) -> (name: String)
        ensures
            name@ == self.name(),
    {
        match self {
            Backend::Local(config) => config.path.clone(),
            Backend::Remote(config) => config.name.clone(),
        }
    }
}

/// The number of models among the first `end` that the run does not leave
/// out.
pub open spec fn active_before(backends: Seq<Backend>, end: int) -> nat
    decreases end,
{
    if end <= 0 {
        0
    } else if backends[end - 1].skipped() {
        active_before(backends, end - 1)
    } else {
        active_before(backends, end - 1) + 1
    }
}

/// What a run works through: the two texts, the variants, and the models in
/// the order in which they are served.
pub struct Job {
    /// The user text, with markers.
    pub prompt: String,
    /// The system text, with markers.
    pub system: String,
    /// The variants, in the order in which each model is asked.
    pub variants: Vec<Vec<(String, String)>>,
    /// The models, in the order in which they are served.
    pub backends: Vec<Backend>,
}

/// Where a run stands.
#[derive(Clone, Copy, Debug, PartialEq, Eq, Structural)]
pub enum Stage {
    /// The model at hand is being loaded.
    Loading,
    /// The model at hand is being asked for the variant at hand.
    Running,
    /// Nothing is left to do.
    Finished,
}

/// The state of a run.
#[derive(Clone, Copy, Debug, PartialEq, Eq, Structural)]
pub struct State {
    pub stage: Stage,
    /// The position of the model at hand among the job's models.
    pub backend: usize,
    /// The position of the variant at hand among the job's variants.
    pub variant: usize,
    /// Whether a local model failed. No local model is served after that.
    pub local_failed: bool,
    /// Whether a remote model failed. No remote model is served after that.
    pub remote_failed: bool,
}

/// What came of the action that the caller was asked for.
pub enum Event {
    /// The model was loaded.
    Loaded,
    /// The model answered; here is its whole answer.
    Completed(String),
    /// The model could not be loaded, or asking it failed.
    Failed,
}

/// The kind of an event, without what it carries.
#[derive(Clone, Copy, Debug, PartialEq, Eq, Structural)]
pub enum Signal {
    Loaded,
    Completed,
    Failed,
}

impl Event {
    /// The kind of this event.
    pub open spec fn signal(&self) -> Signal {
        match self {
            Event::Loaded => Signal::Loaded,
            Event::Completed(_) => Signal::Completed,
            Event::Failed => Signal::Failed,
        }
    }
}

/// What the caller is asked to do next.
pub enum Action {
    /// Load the local model at this position.
    Load { backend: usize },
    /// Ask the model at position `backend` with the given system and user
    /// text, which are those of the variant at position `variant`. This is run
    /// number `progress` of `total`.
    Dispatch {
        backend: usize,
        variant: usize,
        progress: usize,
        total: usize,
        system: String,
        user: String,
    },
    /// Stop. The flags say whether a local and whether a remote model failed.
    Finish { local_failed: bool, remote_failed: bool },
}

impl Job {
    /// The number of models that the run does not leave out.
    pub open spec fn active(&self) -> nat {
        active_before(self.backends@, self.backends@.len() as int)
    }

    /// The number of runs: one for each variant and each model that is not
    /// left out.
    pub open spec fn total(&self) -> nat {
        self.variants@.len() * self.active()
    }

    /// Whether every local model of the job, skipped or not, names a known
    /// architecture.
    pub open spec fn tags_known(&self) -> bool {
        forall|i: int|
            0 <= i < self.backends@.len() ==> (#[trigger] self.backends@[i] matches Backend::Local(
                config,
            ) ==> local::architecture_known(config.architecture@))
    }

    /// Whether the job may be run: every local model names a known
    /// architecture, and the number of runs fits the machine's word.
    pub open spec fn wf(&self) -> bool {
        &&& self.tags_known()
        &&& self.total() <= usize::MAX
    }

    /// The number under which the run of the model at `backend` with the
    /// variant at `variant` is reported: the runs are counted from 1, model
    /// after model, and within a model variant after variant.
    pub open spec fn progress(&self, backend: int, variant: int) -> int {
        active_before(self.backends@, backend) * self.variants@.len() + variant + 1
    }

    /// Whether the model at position `i` is still to be served: it is not
    /// left out, no model of its kind has failed, and there is something to
    /// do with it. A local model is loaded even where no variant is to run.
    pub open spec fn eligible(&self, i: int, local_failed: bool, remote_failed: bool) -> bool {
        let backend = self.backends@[i];
        &&& !backend.skipped()
        &&& if backend.local() {
            !local_failed
        } else {
            !remote_failed && self.variants@.len() > 0
        }
    }

    /// The position of the first model from `from` on that is still to be
    /// served; the number of models where there is none.
    pub open spec fn seek(&self, from: int, local_failed: bool, remote_failed: bool) -> int
        decreases self.backends@.len() - from,
    {
        if from >= self.backends@.len() {
            self.backends@.len() as int
        } else if self.eligible(from, local_failed, remote_failed) {
            from
        } else {
            self.seek(from + 1, local_failed, remote_failed)
        }
    }

    /// The state in which the run takes up the first model from `from` on
    /// that is still to be served: a local model is loaded first, a remote one
    /// is asked at once. Where no model is left the run has finished.
    pub open spec fn arrive(&self, from: int, local_failed: bool, remote_failed: bool) -> State {
        let at = self.seek(from, local_failed, remote_failed);
        if at >= self.backends@.len() {
            State {
                stage: Stage::Finished,
                backend: self.backends@.len() as usize,
                variant: 0,
                local_failed,
                remote_failed,
            }
        } else if self.backends@[at].local() {
            State { stage: Stage::Loading, backend: at as usize, variant: 0, local_failed, remote_failed }
        } else {
            State { stage: Stage::Running, backend: at as usize, variant: 0, local_failed, remote_failed }
        }
    }

    /// Whether the state is one of a run of this job: what it points at
    /// exists, is not left out, and is of a kind that has not failed.
    pub open spec fn fits(&self, state: State) -> bool {
        match state.stage {
            Stage::Finished => true,
            Stage::Loading => {
                &&& state.backend < self.backends@.len()
                &&& self.backends@[state.backend as int].local()
                &&& !self.backends@[state.backend as int].skipped()
                &&& !state.local_failed
                &&& state.variant == 0
            },
            Stage::Running => {
                &&& state.backend < self.backends@.len()
                &&& state.variant < self.variants@.len()
                &&& !self.backends@[state.backend as int].skipped()
                &&& if self.backends@[state.backend as int].local() {
                    !state.local_failed
                } else {
                    !state.remote_failed
                }
            },
        }
    }

    /// The state in which the run begins.
    pub open spec fn first(&self) -> State {
        self.arrive(0, false, false)
    }

    /// The state that follows `state` when an event of the kind `signal` is
    /// reported.
    ///
    /// A loaded model is asked for the first variant; an answer leads to the
    /// next variant and, after the last one, to the next model. A failure
    /// ends the service of all models of the failing kind. An event that the
    /// state does not wait for changes nothing, and a state that does not fit
    /// the job leads to the end.
    pub open spec fn after(&self, state: State, signal: Signal) -> State {
        let next = state.backend + 1;
        if !self.fits(state) {
            State { stage: Stage::Finished, ..state }
        } else {
            match (state.stage, signal) {
                (Stage::Loading, Signal::Loaded) => if self.variants@.len() == 0 {
                    self.arrive(next, state.local_failed, state.remote_failed)
                } else {
                    State { stage: Stage::Running, ..state }
                },
                (Stage::Loading, Signal::Failed) => self.arrive(next, true, state.remote_failed),
                (Stage::Running, Signal::Completed) => if state.variant + 1
                    < self.variants@.len() {
                    State { variant: (state.variant + 1) as usize, ..state }
                } else {
                    self.arrive(next, state.local_failed, state.remote_failed)
                },
                (Stage::Running, Signal::Failed) => if self.backends@[state.backend as int].local() {
                    self.arrive(next, true, state.remote_failed)
                } else {
                    self.arrive(next, state.local_failed, true)
                },
                _ => state,
            }
        }
    }

    /// Whether `state` waits for an event of the kind `signal`: a model that
    /// is being loaded is loaded or fails, a model that is being asked answers
    /// or fails.
    pub open spec fn awaits(&self, state: State, signal: Signal) -> bool {
        match state.stage {
            Stage::Loading => signal != Signal::Completed,
            Stage::Running => signal != Signal::Loaded,
            Stage::Finished => false,
        }
    }

    /// Whether `next` lies later in a run than `state`: its model comes
    /// later in the job, or it is the same model with a later variant, or the
    /// model is asked after it was loaded.
    pub open spec fn later(&self, state: State, next: State) -> bool {
        ||| state.backend < next.backend <= self.backends@.len()
        ||| next.backend == state.backend && state.variant < next.variant
            < self.variants@.len()
        ||| next.backend == state.backend && next.variant == state.variant
            && state.stage is Loading && next.stage is Running
    }

    /// The record of the answer `response` that the model at `backend` gave
    /// to the variant at `variant`.
    pub open spec fn record(&self, backend: int, variant: int, response: Seq<char>) -> Record {
        Record {
            name: self.backends@[backend].name(),
            system: render(self.system@, self.variants.deep_view()[variant]),
            user: render(self.prompt@, self.variants.deep_view()[variant]),
            response,
        }
    }

    /// Whether `action` is what the caller is asked to do in `state`: load
    /// the model at hand, or ask it with the texts of the variant at hand, or
    /// stop where the run has finished or the state does not fit the job.
    pub open spec fn asks(&self, state: State, action: Action) -> bool {
        if !self.fits(state) || state.stage is Finished {
            action == (Action::Finish {
                local_failed: state.local_failed,
                remote_failed: state.remote_failed,
            })
        } else if state.stage is Loading {
            action == (Action::Load { backend: state.backend })
        } else {
            &&& action matches Action::Dispatch { backend, variant, progress, total, system, user }
            &&& backend == state.backend
            &&& variant == state.variant
            &&& progress == self.progress(state.backend as int, state.variant as int)
            &&& total == self.total()
            &&& system@ == render(self.system@, self.variants.deep_view()[state.variant as int])
            &&& user@ == render(self.prompt@, self.variants.deep_view()[state.variant as int])
        }
    }
}

/// The models of a job: the local ones first, then the remote ones, each
/// kind in the order given.
pub open spec fn lined_up(
    locals: Seq<local::ModelConfig>,
    remotes: Seq<remote::ModelConfig>,
) -> Seq<Backend> {
    Seq::new(
        locals.len() + remotes.len(),
        |i: int|
            if i < locals.len() {
                Backend::Local(locals[i])
            } else {
                Backend::Remote(remotes[i - locals.len()])
            },
    )
}

/// Lined up, no local model comes after a remote one. As a run never goes
/// back, it serves no local model once it has turned to the remote ones.
pub proof fn lemma_locals_come_first(
    locals: Seq<local::ModelConfig>,
    remotes: Seq<remote::ModelConfig>,
    i: int,
    j: int,
)
    requires
        0 <= i <= j < lined_up(locals, remotes).len(),
        lined_up(locals, remotes)[j].local(),
    ensures
        lined_up(locals, remotes)[i].local(),
{
}

/// Why no job was made.
pub enum JobError {
    /// A local model's configuration was refused.
    Config(local::ConfigError),
    /// The number of runs does not fit the machine's word.
    TooManyRuns,
}

/// The number of models among the first `end` that are not left out grows
/// with `end`.
pub proof fn lemma_active_before_grows(backends: Seq<Backend>, i: int, j: int)
    requires
        i <= j,
    ensures
        active_before(backends, i) <= active_before(backends, j),
    decreases j - i,
{
    if i < j {
        lemma_active_before_grows(backends, i, j - 1);
    }
}

/// A model that is left out adds nothing to the number of models that are
/// served: the number is the same with the model taken from the list.
pub proof fn lemma_skipped_not_counted(backends: Seq<Backend>, i: int, end: int)
    requires
        0 <= i < end <= backends.len(),
        backends[i].skipped(),
    ensures
        active_before(backends, end) == active_before(backends.remove(i), end - 1),
    decreases end,
{
    if end - 1 > i {
        lemma_skipped_not_counted(backends, i, end - 1);
    } else {
        lemma_active_before_same(backends, backends.remove(i), i);
    }
}

/// Two lists of models that agree on their first `end` models have the same
/// number of served models among them.
proof fn lemma_active_before_same(a: Seq<Backend>, b: Seq<Backend>, end: int)
    requires
        0 <= end <= a.len(),
        end <= b.len(),
        forall|j: int| 0 <= j < end ==> a[j] == b[j],
    ensures
        active_before(a, end) == active_before(b, end),
    decreases end,
{
    if end > 0 {
        lemma_active_before_same(a, b, end - 1);
    }
}

/// Counts the models among the first `end` that are not left out.
fn count_active(backends: &Vec<Backend>, end: usize) -> (count: usize)
    requires
        end <= backends.len(),
    ensures
        count == active_before(backends@, end as int),
        count <= end,
{
    let mut count: usize = 0;
    let mut i: usize = 0;
    while i < end
        invariant
            i <= end,
            end <= backends.len(),
            count <= i,
            count == active_before(backends@, i as int),
        decreases end - i,
    {
        if !backends[i].is_skipped() {
            count += 1;
        }
        i += 1;
    }
    count
}

impl Job {
    /// Makes the job of a run. The local models' architecture tags are
    /// checked first, those of skipped models too; then the number of runs
    /// must fit the machine's word. The models are served local ones first.
    pub fn new(
        prompt: String,
        system: String,
        variants: Vec<Vec<(String, String)>>,
        local_models: Vec<local::ModelConfig>,
        remote_models: Vec<remote::ModelConfig>,
    ) -> (made: Result<Job, JobError>)
        ensures
            match made {
                Ok(job) => {
                    &&& local::all_known(local_models@)
                    &&& job.wf()
                    &&& job.prompt@ == prompt@
                    &&& job.system@ == system@
                    &&& job.variants == variants
                    &&& job.backends@ == lined_up(local_models@, remote_models@)
                },
                Err(JobError::Config(error)) => local::reports_first_unknown(
                    local_models@,
                    error,
                ),
                Err(JobError::TooManyRuns) => {
                    let backends = lined_up(local_models@, remote_models@);
                    &&& local::all_known(local_models@)
                    &&& variants@.len() * active_before(backends, backends.len() as int)
                        > usize::MAX
                },
            },
    {
        match local::validate(&local_models) {
            Err(error) => {
                return Err(JobError::Config(error));
            },
            Ok(_) => {},
        }
        let ghost locals = local_models@;
        let ghost remotes = remote_models@;
        let mut backends: Vec<Backend> = Vec::new();
        for config in it: local_models
            invariant
                it.seq() == locals,
                backends@.len() == it.index(),
                forall|k: int|
                    0 <= k < it.index() ==> #[trigger] backends@[k] == Backend::Local(locals[k]),
        {
            backends.push(Backend::Local(config));
        }
        for config in it: remote_models
            invariant
                it.seq() == remotes,
                backends@.len() == locals.len() + it.index(),
                forall|k: int|
                    0 <= k < locals.len() ==> #[trigger] backends@[k] == Backend::Local(locals[k]),
                forall|k: int|
                    0 <= k < it.index() ==> #[trigger] backends@[locals.len() + k]
                        == Backend::Remote(remotes[k]),
        {
            backends.push(Backend::Remote(config));
        }
        proof {
            assert forall|i: int| 0 <= i < backends@.len() implies backends@[i] == lined_up(
                locals,
                remotes,
            )[i] by {
                if i >= locals.len() {
                    assert(backends@[locals.len() + (i - locals.len())] == Backend::Remote(
                        remotes[i - locals.len()],
                    ));
                }
            }
            assert(backends@ =~= lined_up(locals, remotes));
            assert forall|i: int| 0 <= i < backends@.len() implies (
            #[trigger] backends@[i] matches Backend::Local(config)
                ==> local::architecture_known(config.architecture@)) by {
                if i < locals.len() {
                    assert(local::architecture_known(locals[i].architecture@));
                }
            }
        }
        let active = count_active(&backends, backends.len());
        match variants.len().checked_mul(active) {
            None => Err(JobError::TooManyRuns),
            Some(_) => Ok(Job { prompt, system, variants, backends }),
        }
    }

    /// Whether the job may be run. A job that [`Job::new`] made may; one that
    /// was put together by hand is checked here.
    pub fn is_well_formed(&self) -> (fit: bool)
        ensures
            fit == self.wf(),
    {
        let mut i: usize = 0;
        while i < self.backends.len()
            invariant
                i <= self.backends@.len(),
                forall|k: int|
                    0 <= k < i ==> (#[trigger] self.backends@[k] matches Backend::Local(config)
                        ==> local::architecture_known(config.architecture@)),
            decreases self.backends.len() - i,
        {
            match &self.backends[i] {
                Backend::Local(config) => {
                    if !local::parses_as_architecture(config.architecture.as_str()) {
                        return false;
                    }
                },
                Backend::Remote(_) => {},
            }
            i += 1;
        }
        let active = count_active(&self.backends, self.backends.len());
        self.variants.len().checked_mul(active).is_some()
    }

    /// What the caller is asked to do in `state`, where the job may be run;
    /// nothing where it may not.
    pub fn checked_action(&self, state: &State) -> (action: Option<Action>)
        ensures
            match action {
                Some(asked) => self.wf() && self.asks(*state, asked),
                None => !self.wf(),
            },
    {
        if self.is_well_formed() {
            Some(self.action(state))
        } else {
            None
        }
    }

    /// The number of runs of this job.
    pub fn run_count(&self) -> (total: usize)
        requires
            self.wf(),
        ensures
            total == self.total(),
    {
        let active = count_active(&self.backends, self.backends.len());
        self.variants.len() * active
    }

    /// Finds the first model from `from` on that is still to be served.
    fn find(&self, from: usize, local_failed: bool, remote_failed: bool) -> (at: usize)
        requires
            from <= self.backends@.len(),
        ensures
            at == self.seek(from as int, local_failed, remote_failed),
            from <= at <= self.backends@.len(),
    {
        let mut at: usize = from;
        while at < self.backends.len()
            invariant
                from <= at <= self.backends@.len(),
                self.seek(at as int, local_failed, remote_failed) == self.seek(
                    from as int,
                    local_failed,
                    remote_failed,
                ),
            decreases self.backends.len() - at,
        {
            let backend = &self.backends[at];
            let eligible = !backend.is_skipped() && if backend.is_local() {
                !local_failed
            } else {
                !remote_failed && self.variants.len() > 0
            };
            if eligible {
                return at;
            }
            at += 1;
        }
        at
    }

    /// Takes up the first model from `from` on that is still to be served.
    fn take_up(&self, from: usize, local_failed: bool, remote_failed: bool) -> (state: State)
        requires
            from <= self.backends@.len(),
        ensures
            state == self.arrive(from as int, local_failed, remote_failed),
    {
        let at = self.find(from, local_failed, remote_failed);
        if at >= self.backends.len() {
            State {
                stage: Stage::Finished,
                backend: self.backends.len(),
                variant: 0,
                local_failed,
                remote_failed,
            }
        } else if self.backends[at].is_local() {
            State { stage: Stage::Loading, backend: at, variant: 0, local_failed, remote_failed }
        } else {
            State { stage: Stage::Running, backend: at, variant: 0, local_failed, remote_failed }
        }
    }

    /// Whether the state is one of a run of this job.
    pub fn accepts(&self, state: &State) -> (fits: bool)
        ensures
            fits == self.fits(*state),
    {
        match state.stage {
            Stage::Finished => true,
            Stage::Loading => {
                state.backend < self.backends.len() && self.backends[state.backend].is_local()
                    && !self.backends[state.backend].is_skipped() && !state.local_failed
                    && state.variant == 0
            },
            Stage::Running => {
                state.backend < self.backends.len() && state.variant < self.variants.len()
                    && !self.backends[state.backend].is_skipped() && if self.backends[state.backend].is_local() {
                    !state.local_failed
                } else {
                    !state.remote_failed
                }
            },
        }
    }

    /// The state in which the run begins.
    pub fn start(&self) -> (state: State)
        ensures
            state == self.first(),
    {
        self.take_up(0, false, false)
    }

    /// What the caller is asked to do in `state`. A model that is left out is
    /// never asked, and a run's number lies between 1 and the number of runs.
    pub fn action(&self, state: &State) -> (action: Action)
        requires
            self.wf(),
        ensures
            self.asks(*state, action),
            action matches Action::Dispatch { backend, progress, total, .. } ==> {
                &&& !self.backends@[backend as int].skipped()
                &&& 1 <= progress <= total
            },
    {
        if !self.accepts(state) {
            return Action::Finish {
                local_failed: state.local_failed,
                remote_failed: state.remote_failed,
            };
        }
        match state.stage {
            Stage::Finished => Action::Finish {
                local_failed: state.local_failed,
                remote_failed: state.remote_failed,
            },
            Stage::Loading => Action::Load { backend: state.backend },
            Stage::Running => {
                proof {
                    self.lemma_progress_bounds(state.backend as int, state.variant as int);
                }
                let total = self.run_count();
                let before = count_active(&self.backends, state.backend);
                let progress = before * self.variants.len() + state.variant + 1;
                let variant = &self.variants[state.variant];
                Action::Dispatch {
                    backend: state.backend,
                    variant: state.variant,
                    progress,
                    total,
                    system: render_text(self.system.as_str(), variant),
                    user: render_text(self.prompt.as_str(), variant),
                }
            },
        }
    }

    /// Takes the report of what came of the action that `state` asked for,
    /// and gives the state that follows. An answer that the state waited for
    /// comes back as the record to write down; nothing else makes a record.
    pub fn advance(&self, state: State, event: Event) -> (next: (State, Option<RunOutput>))
        ensures
            next.0 == self.after(state, event.signal()),
            match next.1 {
                Some(output) => {
                    &&& self.fits(state)
                    &&& state.stage is Running
                    &&& event matches Event::Completed(response)
                    &&& output@ == self.record(
                        state.backend as int,
                        state.variant as int,
                        response@,
                    )
                },
                None => !(self.fits(state) && state.stage is Running && event is Completed),
            },
    {
        if !self.accepts(&state) {
            return (State { stage: Stage::Finished, ..state }, None);
        }
        assert(self.backends@.len() == self.backends.len());
        assert(self.variants@.len() == self.variants.len());
        match state.stage {
            Stage::Finished => (state, None),
            Stage::Loading => match event {
                Event::Loaded => if self.variants.len() == 0 {
                    (
                        self.take_up(state.backend + 1, state.local_failed, state.remote_failed),
                        None,
                    )
                } else {
                    (State { stage: Stage::Running, ..state }, None)
                },
                Event::Failed => (self.take_up(state.backend + 1, true, state.remote_failed), None),
                Event::Completed(_) => (state, None),
            },
            Stage::Running => match event {
                Event::Completed(response) => {
                    let variant = &self.variants[state.variant];
                    let output = RunOutput {
                        name: self.backends[state.backend].label(),
                        system: render_text(self.system.as_str(), variant),
                        user: render_text(self.prompt.as_str(), variant),
                        response,
                    };
                    let next = if state.variant + 1 < self.variants.len() {
                        State { variant: state.variant + 1, ..state }
                    } else {
                        self.take_up(state.backend + 1, state.local_failed, state.remote_failed)
                    };
                    (next, Some(output))
                },
                Event::Failed => if self.backends[state.backend].is_local() {
                    (self.take_up(state.backend + 1, true, state.remote_failed), None)
                } else {
                    (self.take_up(state.backend + 1, state.local_failed, true), None)
                },
                Event::Loaded => (state, None),
            },
        }
    }

    /// What `seek` finds: the first model from `from` on that is still to be
    /// served.
    pub proof fn lemma_seek(&self, from: int, local_failed: bool, remote_failed: bool)
        requires
            0 <= from <= self.backends@.len(),
        ensures
            from <= self.seek(from, local_failed, remote_failed) <= self.backends@.len(),
            self.seek(from, local_failed, remote_failed) < self.backends@.len()
                ==> self.eligible(
                self.seek(from, local_failed, remote_failed),
                local_failed,
                remote_failed,
            ),
            forall|j: int|
                from <= j < self.seek(from, local_failed, remote_failed) ==> !self.eligible(
                    j,
                    local_failed,
                    remote_failed,
                ),
        decreases self.backends@.len() - from,
    {
        if from < self.backends@.len() && !self.eligible(from, local_failed, remote_failed) {
            self.lemma_seek(from + 1, local_failed, remote_failed);
        }
    }

    /// A run begins in a state that fits the job.
    pub proof fn lemma_first_fits(&self)
        ensures
            self.fits(self.first()),
    {
        assert(self.backends@.len() == self.backends.len());
        self.lemma_seek(0, false, false);
    }

    /// Whatever is reported, the state that follows fits the job. So every
    /// state of a run fits its job: a model that is left out is never loaded
    /// or asked, and nothing is asked of a kind of model that has failed.
    pub proof fn lemma_after_fits(&self, state: State, signal: Signal)
        ensures
            self.fits(self.after(state, signal)),
    {
        assert(self.backends@.len() == self.backends.len());
        if self.fits(state) && !(state.stage is Finished) {
            let next = state.backend + 1;
            self.lemma_seek(next, state.local_failed, state.remote_failed);
            self.lemma_seek(next, true, state.remote_failed);
            self.lemma_seek(next, state.local_failed, true);
        }
    }

    /// A run never goes back: when the event that a state waits for is
    /// reported, the state that follows lies later in the run. So every model
    /// is loaded at most once, and every variant is run at most once with
    /// each model.
    pub proof fn lemma_after_is_later(&self, state: State, signal: Signal)
        requires
            self.fits(state),
            self.awaits(state, signal),
        ensures
            self.later(state, self.after(state, signal)),
    {
        assert(self.backends@.len() == self.backends.len());
        assert(self.variants@.len() == self.variants.len());
        let next = state.backend + 1;
        self.lemma_seek(next, state.local_failed, state.remote_failed);
        self.lemma_seek(next, true, state.remote_failed);
        self.lemma_seek(next, state.local_failed, true);
    }

    /// Without variants there is no run, whatever the models are.
    pub proof fn lemma_no_variants_no_runs(&self)
        requires
            self.variants@.len() == 0,
        ensures
            self.total() == 0,
            forall|state: State| self.fits(state) ==> !(#[trigger] state.stage is Running),
    {
    }

    /// A variable without candidate values leaves no run at all, whatever the
    /// other variables and the models are.
    pub proof fn lemma_empty_variable_no_runs(
        &self,
        variables: Seq<(Seq<char>, Seq<Seq<char>>)>,
        i: int,
    )
        requires
            self.variants.deep_view() == product(choices(variables)),
            0 <= i < variables.len(),
            variables[i].1.len() == 0,
        ensures
            self.total() == 0,
    {
        lemma_empty_variable_no_variants(variables, i);
        assert(self.variants.deep_view().len() == self.variants@.len());
    }

    /// The runs are numbered in the order in which they are asked for: where
    /// an answer or a failure leads from one run to another, the other has
    /// the greater number.
    pub proof fn lemma_progress_increases(&self, state: State, signal: Signal)
        requires
            self.fits(state),
            state.stage is Running,
            self.after(state, signal) != state,
            self.after(state, signal).stage is Running,
        ensures
            self.progress(
                self.after(state, signal).backend as int,
                self.after(state, signal).variant as int,
            ) > self.progress(state.backend as int, state.variant as int),
    {
        assert(self.backends@.len() == self.backends.len());
        assert(self.variants@.len() == self.variants.len());
        let next = self.after(state, signal);
        let from = state.backend + 1;
        self.lemma_seek(from, state.local_failed, state.remote_failed);
        self.lemma_seek(from, true, state.remote_failed);
        self.lemma_seek(from, state.local_failed, true);
        if next.backend != state.backend {
            lemma_active_before_grows(self.backends@, from, next.backend as int);
            let before = active_before(self.backends@, state.backend as int);
            let later = active_before(self.backends@, next.backend as int);
            let count = self.variants@.len();
            assert(later * count >= before * count + count) by (nonlinear_arith)
                requires
                    later >= before + 1,
                    count >= 0,
            ;
        }
    }

    /// The number of a run lies between 1 and the number of runs.
    pub proof fn lemma_progress_bounds(&self, backend: int, variant: int)
        requires
            0 <= backend < self.backends@.len(),
            !self.backends@[backend].skipped(),
            0 <= variant < self.variants@.len(),
        ensures
            1 <= self.progress(backend, variant) <= self.total(),
            active_before(self.backends@, backend) * self.variants@.len() + self.variants@.len()
                <= self.total(),
    {
        let before = active_before(self.backends@, backend);
        let count = self.variants@.len();
        lemma_active_before_grows(self.backends@, backend + 1, self.backends@.len() as int);
        assert(before * count + count <= count * self.active()) by (nonlinear_arith)
            requires
                before + 1 <= self.active(),
                count >= 0,
        ;
        assert(before * count >= 0) by (nonlinear_arith)
            requires
                before >= 0,
                count >= 0,
        ;
    }
}

} // verus!
