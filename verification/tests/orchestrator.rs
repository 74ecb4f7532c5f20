use prompt_eval::local;
use prompt_eval::orchestrator::{Action, Backend, Event, Job, JobError, Stage, State};
use prompt_eval::output::RunOutput;
use prompt_eval::remote;
use prompt_eval::variants::{make_variants, VariableSet};

fn local_config(path: &str, skip: bool) -> local::ModelConfig {
    local::ModelConfig {
        path: path.to_string(),
        architecture: "llama".to_string(),
        template_path: format!("{path}.txt"),
        skip,
    }
}

fn remote_config(name: &str, skip: bool) -> remote::ModelConfig {
    remote::ModelConfig::new(name.to_string(), None, skip)
}

fn variants_of(variables: &[(&str, &[&str])]) -> Vec<Vec<(String, String)>> {
    let mut set = VariableSet::new();
    for (name, values) in variables {
        set.insert(name.to_string(), values.iter().map(|v| v.to_string()).collect());
    }
    make_variants(&set)
}

fn job(
    prompt: &str,
    system: &str,
    variables: &[(&str, &[&str])],
    locals: Vec<local::ModelConfig>,
    remotes: Vec<remote::ModelConfig>,
) -> Job {
    match Job::new(prompt.to_string(), system.to_string(), variants_of(variables), locals, remotes)
    {
        Ok(job) => job,
        Err(_) => panic!("the job was refused"),
    }
}

/// What a run did, as the caller saw it.
#[derive(Debug, PartialEq, Eq, Default)]
struct Trace {
    loads: Vec<usize>,
    dispatches: Vec<(usize, usize, usize, usize)>,
    records: Vec<(String, String, String, String)>,
    failed: (bool, bool),
}

fn fields(output: RunOutput) -> (String, String, String, String) {
    (output.name, output.system, output.user, output.response)
}

/// Runs the job against a backend that answers from the texts alone.
/// `fails` names the dispatches (model, variant) that fail, `unloadable`
/// the models that cannot be loaded.
fn run(job: &Job, fails: &[(usize, usize)], unloadable: &[usize]) -> Trace {
    let mut trace = Trace::default();
    let mut state = job.start();
    for _ in 0..10_000 {
        let event = match job.action(&state) {
            Action::Load { backend } => {
                trace.loads.push(backend);
                if unloadable.contains(&backend) {
                    Event::Failed
                } else {
                    Event::Loaded
                }
            }
            Action::Dispatch { backend, variant, progress, total, system, user } => {
                trace.dispatches.push((backend, variant, progress, total));
                if fails.contains(&(backend, variant)) {
                    Event::Failed
                } else {
                    Event::Completed(format!("[{system}|{user}]"))
                }
            }
            Action::Finish { local_failed, remote_failed } => {
                trace.failed = (local_failed, remote_failed);
                return trace;
            }
        };
        let (next, output) = job.advance(state, event);
        if let Some(output) = output {
            trace.records.push(fields(output));
        }
        state = next;
    }
    panic!("the run did not end");
}

#[test]
fn one_backend_two_values_give_two_records_in_order() {
    let job = job("val={{x}}", "", &[("{{x}}", &["1", "2"])], vec![], vec![remote_config("m", false)]);
    let trace = run(&job, &[], &[]);
    assert_eq!(trace.records.len(), 2);
    assert_eq!(trace.records[0].2, "val=1");
    assert_eq!(trace.records[1].2, "val=2");
    assert_eq!(trace.records[0].0, "m");
    assert_eq!(trace.dispatches, vec![(0, 0, 1, 2), (0, 1, 2, 2)]);
    assert_eq!(trace.failed, (false, false));
}

#[test]
fn skipped_configurations_do_not_count() {
    let job = job(
        "{{x}}",
        "s",
        &[("{{x}}", &["1", "2", "3"])],
        vec![local_config("a.bin", true), local_config("b.bin", false)],
        vec![],
    );
    assert_eq!(job.run_count(), 3);
    let trace = run(&job, &[], &[]);
    assert_eq!(trace.loads, vec![1]);
    assert_eq!(trace.dispatches, vec![(1, 0, 1, 3), (1, 1, 2, 3), (1, 2, 3, 3)]);
    assert_eq!(trace.records.len(), 3);
    assert!(trace.records.iter().all(|record| record.0 == "b.bin"));
}

#[test]
fn progress_counts_through_both_kinds() {
    let job = job(
        "p {{x}}",
        "s {{x}}",
        &[("{{x}}", &["1", "2"])],
        vec![local_config("a.bin", false), local_config("b.bin", true), local_config("c.bin", false)],
        vec![remote_config("r", true), remote_config("q", false)],
    );
    assert_eq!(job.run_count(), 6);
    let trace = run(&job, &[], &[]);
    assert_eq!(trace.loads, vec![0, 2]);
    assert_eq!(
        trace.dispatches,
        vec![(0, 0, 1, 6), (0, 1, 2, 6), (2, 0, 3, 6), (2, 1, 4, 6), (4, 0, 5, 6), (4, 1, 6, 6)]
    );
    let expected: Vec<(String, String, String, String)> = [
        ("a.bin", "1"),
        ("a.bin", "2"),
        ("c.bin", "1"),
        ("c.bin", "2"),
        ("q", "1"),
        ("q", "2"),
    ]
    .iter()
    .map(|(name, x)| {
        (name.to_string(), format!("s {x}"), format!("p {x}"), format!("[s {x}|p {x}]"))
    })
    .collect();
    assert_eq!(trace.records, expected);
}

#[test]
fn the_same_input_gives_the_same_records() {
    let make = || {
        job(
            "{{a}} and {{b}}",
            "about {{b}}",
            &[("{{a}}", &["1", "2"]), ("{{b}}", &["x", "y"])],
            vec![local_config("a.bin", false)],
            vec![remote_config("r", false)],
        )
    };
    let first = run(&make(), &[], &[]);
    let second = run(&make(), &[], &[]);
    assert_eq!(first.records.len(), 8);
    assert_eq!(first, second);
}

#[test]
fn no_variant_means_no_run() {
    let job = job(
        "{{x}}",
        "",
        &[("{{x}}", &[])],
        vec![local_config("a.bin", false)],
        vec![remote_config("r", false)],
    );
    assert_eq!(job.run_count(), 0);
    let trace = run(&job, &[], &[]);
    assert_eq!(trace.loads, vec![0]);
    assert!(trace.dispatches.is_empty());
    assert!(trace.records.is_empty());
}

#[test]
fn no_variable_means_one_run_for_each_model() {
    let job = job("plain", "sys", &[], vec![], vec![remote_config("r", false), remote_config("s", false)]);
    let trace = run(&job, &[], &[]);
    assert_eq!(trace.dispatches, vec![(0, 0, 1, 2), (1, 0, 2, 2)]);
    assert_eq!(trace.records[1], ("s".into(), "sys".into(), "plain".into(), "[sys|plain]".into()));
}

#[test]
fn a_failing_local_model_ends_the_local_models_only() {
    let job = job(
        "{{x}}",
        "",
        &[("{{x}}", &["1", "2"])],
        vec![local_config("a.bin", false), local_config("b.bin", false)],
        vec![remote_config("r", false)],
    );
    let trace = run(&job, &[(0, 1)], &[]);
    assert_eq!(trace.loads, vec![0]);
    assert_eq!(trace.dispatches, vec![(0, 0, 1, 6), (0, 1, 2, 6), (2, 0, 5, 6), (2, 1, 6, 6)]);
    assert_eq!(trace.records.len(), 3);
    assert_eq!(trace.failed, (true, false));
}

#[test]
fn a_model_that_cannot_be_loaded_ends_the_local_models() {
    let job = job(
        "{{x}}",
        "",
        &[("{{x}}", &["1"])],
        vec![local_config("a.bin", false), local_config("b.bin", false)],
        vec![remote_config("r", false)],
    );
    let trace = run(&job, &[], &[0]);
    assert_eq!(trace.loads, vec![0]);
    assert_eq!(trace.dispatches, vec![(2, 0, 3, 3)]);
    assert_eq!(trace.failed, (true, false));
}

#[test]
fn a_failing_remote_request_ends_the_remote_models() {
    let job = job(
        "{{x}}",
        "",
        &[("{{x}}", &["1", "2"])],
        vec![local_config("a.bin", false)],
        vec![remote_config("r", false), remote_config("s", false)],
    );
    let trace = run(&job, &[(1, 0)], &[]);
    assert_eq!(trace.dispatches, vec![(0, 0, 1, 6), (0, 1, 2, 6), (1, 0, 3, 6)]);
    assert_eq!(trace.records.len(), 2);
    assert_eq!(trace.failed, (false, true));
}

#[test]
fn an_unknown_architecture_refuses_the_job() {
    let mut bad = local_config("b.bin", true);
    bad.architecture = "perceptron".to_string();
    let made = Job::new(
        "p".to_string(),
        "s".to_string(),
        vec![vec![]],
        vec![local_config("a.bin", false), bad],
        vec![],
    );
    match made {
        Err(JobError::Config(error)) => {
            assert_eq!(error.message(), "invalid model architecture: perceptron")
        }
        _ => panic!("the job was not refused for its architecture"),
    }
}

#[test]
fn an_event_that_is_not_awaited_changes_nothing() {
    let job = job("{{x}}", "", &[("{{x}}", &["1"])], vec![local_config("a.bin", false)], vec![]);
    let loading = job.start();
    assert_eq!(
        loading,
        State { stage: Stage::Loading, backend: 0, variant: 0, local_failed: false, remote_failed: false }
    );
    let (next, output) = job.advance(loading, Event::Completed("early".to_string()));
    assert_eq!(next, loading);
    assert!(output.is_none());
    let (running, _) = job.advance(loading, Event::Loaded);
    assert_eq!(running.stage, Stage::Running);
    let (same, output) = job.advance(running, Event::Loaded);
    assert_eq!(same, running);
    assert!(output.is_none());
}

#[test]
fn a_state_of_another_job_ends_the_run() {
    let job = job("{{x}}", "", &[("{{x}}", &["1"])], vec![], vec![remote_config("r", true)]);
    let foreign =
        State { stage: Stage::Running, backend: 0, variant: 0, local_failed: false, remote_failed: false };
    assert!(!job.accepts(&foreign));
    assert!(matches!(job.action(&foreign), Action::Finish { .. }));
    let (next, output) = job.advance(foreign, Event::Completed("x".to_string()));
    assert_eq!(next.stage, Stage::Finished);
    assert!(output.is_none());
    let beyond =
        State { stage: Stage::Loading, backend: 7, variant: 0, local_failed: false, remote_failed: false };
    assert!(!job.accepts(&beyond));
}

#[test]
fn local_models_are_lined_up_before_remote_ones() {
    let job = job(
        "p",
        "s",
        &[],
        vec![local_config("a.bin", false), local_config("b.bin", true)],
        vec![remote_config("r", false)],
    );
    let kinds: Vec<(bool, bool, String)> = job
        .backends
        .iter()
        .map(|backend| (backend.is_local(), backend.is_skipped(), backend.label()))
        .collect();
    assert_eq!(
        kinds,
        vec![
            (true, false, "a.bin".to_string()),
            (true, true, "b.bin".to_string()),
            (false, false, "r".to_string()),
        ]
    );
}

#[test]
fn a_run_number_follows_the_formula() {
    let job = job(
        "{{x}}",
        "",
        &[("{{x}}", &["1", "2", "3", "4"])],
        vec![],
        vec![remote_config("a", false), remote_config("b", true), remote_config("c", false)],
    );
    let state =
        State { stage: Stage::Running, backend: 2, variant: 2, local_failed: false, remote_failed: false };
    assert!(job.accepts(&state));
    match job.action(&state) {
        Action::Dispatch { backend, variant, progress, total, system, user } => {
            assert_eq!((backend, variant), (2, 2));
            assert_eq!(progress, 1 * 4 + 2 + 1);
            assert_eq!(total, 8);
            assert_eq!(system, "");
            assert_eq!(user, "3");
        }
        _ => panic!("a run was due"),
    }
}

#[test]
fn a_job_put_together_by_hand_is_checked_before_it_runs() {
    let mut unknown = local_config("b.bin", true);
    unknown.architecture = "perceptron".to_string();
    let by_hand = Job {
        prompt: "p".to_string(),
        system: "s".to_string(),
        variants: vec![vec![]],
        backends: vec![Backend::Remote(remote_config("r", false)), Backend::Local(unknown)],
    };
    assert!(!by_hand.is_well_formed());
    assert!(by_hand.checked_action(&by_hand.start()).is_none());

    let sound = Job {
        prompt: "p".to_string(),
        system: "s".to_string(),
        variants: vec![vec![]],
        backends: vec![
            Backend::Remote(remote_config("r", false)),
            Backend::Local(local_config("a.bin", true)),
        ],
    };
    assert!(sound.is_well_formed());
    match sound.checked_action(&sound.start()) {
        Some(Action::Dispatch { backend, variant, progress, total, system, user }) => {
            assert_eq!((backend, variant, progress, total), (0, 0, 1, 1));
            assert_eq!((system.as_str(), user.as_str()), ("s", "p"));
        }
        _ => panic!("a run was due"),
    }
}

#[test]
fn a_job_that_was_made_may_be_run() {
    let job = job(
        "{{x}}",
        "",
        &[("{{x}}", &["1"])],
        vec![local_config("a.bin", false)],
        vec![remote_config("r", false)],
    );
    assert!(job.is_well_formed());
    assert!(matches!(job.checked_action(&job.start()), Some(Action::Load { backend: 0 })));
}
