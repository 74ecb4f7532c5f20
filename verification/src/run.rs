//! Whole runs, as a model: the records that a job leaves when its models
//! behave in a given way, and what holds of them.

use crate::orchestrator::{active_before, lemma_active_before_grows, Job, Signal, Stage, State};
use crate::output::Record;
use vstd::prelude::*;

verus! {

/// The records that a run leaves from `state` on, in the order in which they
/// are made. `loads` says of each model whether it can be loaded, and
/// `outcomes` says what comes of asking a model with a variant: its answer, or
/// nothing where asking fails.
///
/// The run does in each state what the state asks for and goes on with the
/// state that follows, until nothing is left to do.
pub open spec fn run(
    job: &Job,
    state: State,
    loads: spec_fn(int) -> bool,
    outcomes: spec_fn(int, int) -> Option<Seq<char>>,
) -> Seq<Record>
    decreases
            job.backends@.len() - state.backend,
            job.variants@.len() - state.variant,
            (if state.stage is Loading {
                1int
            } else {
                0int
            }),
    via run_ends
{
    let backend = state.backend as int;
    let variant = state.variant as int;
    if !job.fits(state) || state.stage is Finished {
        Seq::empty()
    } else if state.stage is Loading {
        if loads(backend) {
            run(job, job.after(state, Signal::Loaded), loads, outcomes)
        } else {
            run(job, job.after(state, Signal::Failed), loads, outcomes)
        }
    } else {
        match outcomes(backend, variant) {
            Some(response) => seq![job.record(backend, variant, response)] + run(
                job,
                job.after(state, Signal::Completed),
                loads,
                outcomes,
            ),
            None => run(job, job.after(state, Signal::Failed), loads, outcomes),
        }
    }
}

#[via_fn]
proof fn run_ends(
    job: &Job,
    state: State,
    loads: spec_fn(int) -> bool,
    outcomes: spec_fn(int, int) -> Option<Seq<char>>,
) {
    if job.fits(state) && !(state.stage is Finished) {
        lemma_steps_are_later(job, state);
    }
}

/// Whatever comes of the action that a state asks for, the state that follows
/// lies later in the run.
proof fn lemma_steps_are_later(job: &Job, state: State)
    requires
        job.fits(state),
        !(state.stage is Finished),
    ensures
        job.awaits(state, Signal::Loaded) ==> job.later(state, job.after(state, Signal::Loaded)),
        job.awaits(state, Signal::Completed) ==> job.later(
            state,
            job.after(state, Signal::Completed),
        ),
        job.later(state, job.after(state, Signal::Failed)),
{
    if state.stage is Loading {
        job.lemma_after_is_later(state, Signal::Loaded);
    } else {
        job.lemma_after_is_later(state, Signal::Completed);
    }
    job.lemma_after_is_later(state, Signal::Failed);
}

/// The number of times that a run asks a model from `state` on.
pub open spec fn asked(
    job: &Job,
    state: State,
    loads: spec_fn(int) -> bool,
    outcomes: spec_fn(int, int) -> Option<Seq<char>>,
) -> nat
    decreases
            job.backends@.len() - state.backend,
            job.variants@.len() - state.variant,
            (if state.stage is Loading {
                1int
            } else {
                0int
            }),
    via asked_ends
{
    let backend = state.backend as int;
    let variant = state.variant as int;
    if !job.fits(state) || state.stage is Finished {
        0
    } else if state.stage is Loading {
        if loads(backend) {
            asked(job, job.after(state, Signal::Loaded), loads, outcomes)
        } else {
            asked(job, job.after(state, Signal::Failed), loads, outcomes)
        }
    } else if outcomes(backend, variant) is Some {
        1 + asked(job, job.after(state, Signal::Completed), loads, outcomes)
    } else {
        1 + asked(job, job.after(state, Signal::Failed), loads, outcomes)
    }
}

#[via_fn]
proof fn asked_ends(
    job: &Job,
    state: State,
    loads: spec_fn(int) -> bool,
    outcomes: spec_fn(int, int) -> Option<Seq<char>>,
) {
    if job.fits(state) && !(state.stage is Finished) {
        lemma_steps_are_later(job, state);
    }
}

/// The number of times that asking a model fails in a run from `state` on.
pub open spec fn refused(
    job: &Job,
    state: State,
    loads: spec_fn(int) -> bool,
    outcomes: spec_fn(int, int) -> Option<Seq<char>>,
) -> nat
    decreases
            job.backends@.len() - state.backend,
            job.variants@.len() - state.variant,
            (if state.stage is Loading {
                1int
            } else {
                0int
            }),
    via refused_ends
{
    let backend = state.backend as int;
    let variant = state.variant as int;
    if !job.fits(state) || state.stage is Finished {
        0
    } else if state.stage is Loading {
        if loads(backend) {
            refused(job, job.after(state, Signal::Loaded), loads, outcomes)
        } else {
            refused(job, job.after(state, Signal::Failed), loads, outcomes)
        }
    } else if outcomes(backend, variant) is Some {
        refused(job, job.after(state, Signal::Completed), loads, outcomes)
    } else {
        1 + refused(job, job.after(state, Signal::Failed), loads, outcomes)
    }
}

#[via_fn]
proof fn refused_ends(
    job: &Job,
    state: State,
    loads: spec_fn(int) -> bool,
    outcomes: spec_fn(int, int) -> Option<Seq<char>>,
) {
    if job.fits(state) && !(state.stage is Finished) {
        lemma_steps_are_later(job, state);
    }
}

/// Each time a model is asked, the run leaves one record or the asking fails:
/// there are as many records as there were askings that did not fail.
pub proof fn lemma_one_record_for_each_answer(
    job: &Job,
    state: State,
    loads: spec_fn(int) -> bool,
    outcomes: spec_fn(int, int) -> Option<Seq<char>>,
)
    ensures
        run(job, state, loads, outcomes).len() + refused(job, state, loads, outcomes) == asked(
            job,
            state,
            loads,
            outcomes,
        ),
    decreases
            job.backends@.len() - state.backend,
            job.variants@.len() - state.variant,
            (if state.stage is Loading {
                1int
            } else {
                0int
            }),
{
    if job.fits(state) && !(state.stage is Finished) {
        lemma_steps_are_later(job, state);
        let backend = state.backend as int;
        let variant = state.variant as int;
        if state.stage is Loading {
            if loads(backend) {
                lemma_one_record_for_each_answer(
                    job,
                    job.after(state, Signal::Loaded),
                    loads,
                    outcomes,
                );
            } else {
                lemma_one_record_for_each_answer(
                    job,
                    job.after(state, Signal::Failed),
                    loads,
                    outcomes,
                );
            }
        } else if outcomes(backend, variant) is Some {
            lemma_one_record_for_each_answer(
                job,
                job.after(state, Signal::Completed),
                loads,
                outcomes,
            );
        } else {
            lemma_one_record_for_each_answer(job, job.after(state, Signal::Failed), loads, outcomes);
        }
    }
}

/// From a state on, a run asks no more often than there are runs left to
/// number: the number of the run at hand and all greater ones.
proof fn lemma_asked_from(
    job: &Job,
    state: State,
    loads: spec_fn(int) -> bool,
    outcomes: spec_fn(int, int) -> Option<Seq<char>>,
)
    requires
        job.fits(state),
        !(state.stage is Finished),
    ensures
        asked(job, state, loads, outcomes) + job.progress(
            state.backend as int,
            state.variant as int,
        ) <= job.total() + 1,
    decreases
            job.backends@.len() - state.backend,
            job.variants@.len() - state.variant,
            (if state.stage is Loading {
                1int
            } else {
                0int
            }),
{
    lemma_steps_are_later(job, state);
    let backend = state.backend as int;
    let variant = state.variant as int;
    let count = job.variants@.len() as int;
    let before = active_before(job.backends@, backend) as int;
    let signal = if state.stage is Loading {
        if loads(backend) {
            Signal::Loaded
        } else {
            Signal::Failed
        }
    } else if outcomes(backend, variant) is Some {
        Signal::Completed
    } else {
        Signal::Failed
    };
    let next = job.after(state, signal);
    job.lemma_after_fits(state, signal);
    lemma_active_before_grows(job.backends@, backend + 1, job.backends@.len() as int);
    assert(before * count + count <= count * job.active()) by (nonlinear_arith)
        requires
            before + 1 <= job.active(),
            count >= 0,
    ;
    assert(before * count >= 0) by (nonlinear_arith)
        requires
            before >= 0,
            count >= 0,
    ;
    let following = asked(job, next, loads, outcomes);
    assert(asked(job, state, loads, outcomes) == if state.stage is Loading {
        following
    } else {
        1 + following
    });
    if !(next.stage is Finished) {
        lemma_asked_from(job, next, loads, outcomes);
        if next.backend != state.backend {
            let later = active_before(job.backends@, next.backend as int) as int;
            lemma_active_before_grows(job.backends@, backend + 1, next.backend as int);
            assert(later * count >= before * count + count) by (nonlinear_arith)
                requires
                    later >= before + 1,
                    count >= 0,
            ;
        }
    }
}

/// A run asks the models no more often than the job has runs, and so it
/// leaves no more records than that.
pub proof fn lemma_asked_at_most_total(
    job: &Job,
    loads: spec_fn(int) -> bool,
    outcomes: spec_fn(int, int) -> Option<Seq<char>>,
)
    ensures
        asked(job, job.first(), loads, outcomes) <= job.total(),
        run(job, job.first(), loads, outcomes).len() <= job.total(),
{
    job.lemma_first_fits();
    lemma_one_record_for_each_answer(job, job.first(), loads, outcomes);
    if !(job.first().stage is Finished) {
        lemma_asked_from(job, job.first(), loads, outcomes);
        let count = job.variants@.len() as int;
        let before = active_before(job.backends@, job.first().backend as int) as int;
        assert(before * count >= 0) by (nonlinear_arith)
            requires
                before >= 0,
                count >= 0,
        ;
    }
}

/// Every record of a run is the record of an answer that a model gave which
/// is not left out, to one of the variants.
pub proof fn lemma_records_are_answers(
    job: &Job,
    state: State,
    loads: spec_fn(int) -> bool,
    outcomes: spec_fn(int, int) -> Option<Seq<char>>,
    k: int,
)
    requires
        0 <= k < run(job, state, loads, outcomes).len(),
    ensures
        exists|backend: int, variant: int|
            {
                &&& 0 <= backend < job.backends@.len()
                &&& 0 <= variant < job.variants@.len()
                &&& !job.backends@[backend].skipped()
                &&& #[trigger] outcomes(backend, variant) is Some
                &&& run(job, state, loads, outcomes)[k] == job.record(
                    backend,
                    variant,
                    outcomes(backend, variant)->0,
                )
            },
    decreases
            job.backends@.len() - state.backend,
            job.variants@.len() - state.variant,
            (if state.stage is Loading {
                1int
            } else {
                0int
            }),
{
    lemma_steps_are_later(job, state);
    let backend = state.backend as int;
    let variant = state.variant as int;
    if state.stage is Loading {
        if loads(backend) {
            lemma_records_are_answers(job, job.after(state, Signal::Loaded), loads, outcomes, k);
        } else {
            lemma_records_are_answers(job, job.after(state, Signal::Failed), loads, outcomes, k);
        }
    } else if outcomes(backend, variant) is Some {
        if k > 0 {
            lemma_records_are_answers(
                job,
                job.after(state, Signal::Completed),
                loads,
                outcomes,
                k - 1,
            );
        }
    } else {
        lemma_records_are_answers(job, job.after(state, Signal::Failed), loads, outcomes, k);
    }
}

/// The records that are due from the model at `backend` and its variant at
/// `variant` on, where every model answers: for each model that is not left
/// out, in the order of the models, one record for each variant, in the order
/// of the variants. `answers` gives each answer.
pub open spec fn due(
    job: &Job,
    backend: int,
    variant: int,
    answers: spec_fn(int, int) -> Seq<char>,
) -> Seq<Record>
    decreases job.backends@.len() - backend, job.variants@.len() - variant,
{
    if backend < 0 || backend >= job.backends@.len() || variant < 0 {
        Seq::empty()
    } else if job.backends@[backend].skipped() || variant >= job.variants@.len() {
        due(job, backend + 1, 0, answers)
    } else {
        seq![job.record(backend, variant, answers(backend, variant))] + due(
            job,
            backend,
            variant + 1,
            answers,
        )
    }
}

/// The records that are due from `state` on, where every model answers.
pub open spec fn due_from(job: &Job, state: State, answers: spec_fn(int, int) -> Seq<char>) -> Seq<
    Record,
> {
    if state.stage is Finished {
        Seq::empty()
    } else {
        due(job, state.backend as int, state.variant as int, answers)
    }
}

/// Taking up the next model that is to be served passes over no record that
/// is due.
proof fn lemma_due_on_arrival(job: &Job, from: int, answers: spec_fn(int, int) -> Seq<char>)
    requires
        0 <= from <= job.backends@.len(),
    ensures
        due_from(job, job.arrive(from, false, false), answers) == due(job, from, 0, answers),
    decreases job.backends@.len() - from,
{
    assert(job.backends@.len() == job.backends.len());
    job.lemma_seek(from, false, false);
    if from < job.backends@.len() && !job.eligible(from, false, false) {
        lemma_due_on_arrival(job, from + 1, answers);
        job.lemma_seek(from + 1, false, false);
    }
}

/// Where every model can be loaded and answers, the run leaves from `state`
/// on exactly the records that are due.
proof fn lemma_run_from(
    job: &Job,
    state: State,
    loads: spec_fn(int) -> bool,
    outcomes: spec_fn(int, int) -> Option<Seq<char>>,
    answers: spec_fn(int, int) -> Seq<char>,
)
    requires
        job.fits(state),
        !state.local_failed,
        !state.remote_failed,
        forall|b: int| #[trigger] loads(b),
        forall|b: int, v: int| #[trigger] outcomes(b, v) == Some(answers(b, v)),
    ensures
        run(job, state, loads, outcomes) == due_from(job, state, answers),
    decreases
            job.backends@.len() - state.backend,
            job.variants@.len() - state.variant,
            (if state.stage is Loading {
                1int
            } else {
                0int
            }),
{
    assert(job.backends@.len() == job.backends.len());
    assert(job.variants@.len() == job.variants.len());
    if !(state.stage is Finished) {
        let from = state.backend + 1;
        let signal = if state.stage is Loading {
            Signal::Loaded
        } else {
            Signal::Completed
        };
        let next = job.after(state, signal);
        job.lemma_seek(from, false, false);
        job.lemma_after_fits(state, signal);
        lemma_due_on_arrival(job, from, answers);
        lemma_run_from(job, next, loads, outcomes, answers);
        if state.stage is Running {
            assert(due_from(job, next, answers) == due(
                job,
                state.backend as int,
                state.variant + 1,
                answers,
            ));
        }
    }
}

/// The number of records that are due from a place on.
proof fn lemma_due_len(job: &Job, backend: int, variant: int, answers: spec_fn(int, int) -> Seq<char>)
    requires
        0 <= backend <= job.backends@.len(),
        0 <= variant <= job.variants@.len(),
    ensures
        due(job, backend, variant, answers).len() == (if backend < job.backends@.len()
            && !job.backends@[backend].skipped() {
            job.variants@.len() - variant
        } else {
            0
        }) + job.variants@.len() * (job.active() - active_before(
            job.backends@,
            if backend < job.backends@.len() {
                backend + 1
            } else {
                backend
            },
        )),
    decreases job.backends@.len() - backend, job.variants@.len() - variant,
{
    let count = job.variants@.len() as int;
    let models = job.backends@.len() as int;
    let all = job.active() as int;
    if backend < models {
        if job.backends@[backend].skipped() || variant >= count {
            lemma_due_len(job, backend + 1, 0, answers);
            let served = active_before(job.backends@, backend + 1) as int;
            if backend + 1 < models && !job.backends@[backend + 1].skipped() {
                assert(count + count * (all - (served + 1)) == count * (all - served))
                    by (nonlinear_arith);
            }
        } else {
            lemma_due_len(job, backend, variant + 1, answers);
        }
    } else {
        assert(count * (all - all) == 0) by (nonlinear_arith);
    }
}

/// Where every model can be loaded and answers, a run leaves one record for
/// each variant and each model that is not left out, and no other: the
/// records are those of the models in their order, and for each model those
/// of the variants in their order. Their number is the number of runs. The
/// records depend on the job and on the answers alone.
pub proof fn lemma_run_without_failure(
    job: &Job,
    loads: spec_fn(int) -> bool,
    outcomes: spec_fn(int, int) -> Option<Seq<char>>,
    answers: spec_fn(int, int) -> Seq<char>,
)
    requires
        forall|b: int| #[trigger] loads(b),
        forall|b: int, v: int| #[trigger] outcomes(b, v) == Some(answers(b, v)),
    ensures
        run(job, job.first(), loads, outcomes) == due(job, 0, 0, answers),
        due(job, 0, 0, answers).len() == job.total(),
{
    job.lemma_first_fits();
    lemma_run_from(job, job.first(), loads, outcomes, answers);
    lemma_due_on_arrival(job, 0, answers);
    lemma_due_len(job, 0, 0, answers);
    let count = job.variants@.len() as int;
    let all = job.active() as int;
    assert(active_before(job.backends@, 0) == 0);
    if job.backends@.len() > 0 && !job.backends@[0].skipped() {
        assert(count + count * (all - 1) == count * all) by (nonlinear_arith);
    }
}

} // verus!
