use prompt_eval::local::{self, first_unknown, validate, ConfigError};
use prompt_eval::output::{default_output_path, output_path_at, output_path_for, path_of_stamp};
use prompt_eval::remote;

fn local_model(path: &str, architecture: &str, skip: bool) -> local::ModelConfig {
    local::ModelConfig {
        path: path.to_string(),
        architecture: architecture.to_string(),
        template_path: format!("{path}.template"),
        skip,
    }
}

#[test]
fn known_architectures_pass() {
    let configs = vec![
        local_model("a.bin", "llama", false),
        local_model("b.bin", "gpt2", true),
        local_model("c.bin", "GPT-J", false),
        local_model("d.bin", "bloom", false),
        local_model("e.bin", "gpt-neox", false),
    ];
    assert!(validate(&configs).is_ok());
    assert!(validate(&Vec::new()).is_ok());
}

#[test]
fn the_first_unknown_architecture_is_reported() {
    let configs = vec![
        local_model("a.bin", "llama", false),
        local_model("b.bin", "transformer-xl", true),
        local_model("c.bin", "nonsense", false),
    ];
    match validate(&configs) {
        Err(error) => {
            assert_eq!(error.message(), "invalid model architecture: transformer-xl");
            let ConfigError::InvalidArchitecture { index, architecture } = error;
            assert_eq!(index, 1);
            assert_eq!(architecture, "transformer-xl");
        }
        Ok(()) => panic!("an unknown architecture passed"),
    }
}

#[test]
fn first_unknown_finds_the_first_false() {
    assert_eq!(first_unknown(&vec![]), None);
    assert_eq!(first_unknown(&vec![true, true]), None);
    assert_eq!(first_unknown(&vec![true, false, false]), Some(1));
    assert_eq!(first_unknown(&vec![false]), Some(0));
}

#[test]
fn a_remote_model_without_an_address_gets_the_default_one() {
    let config = remote::ModelConfig::new("gpt-4".to_string(), None, false);
    assert_eq!(config.name, "gpt-4");
    assert_eq!(config.api_base_url, "https://api.openai.com/v1");
    assert!(!config.skip);
}

#[test]
fn a_remote_model_keeps_its_own_address() {
    let config =
        remote::ModelConfig::new("m".to_string(), Some("http://localhost:8080".to_string()), true);
    assert_eq!(config.api_base_url, "http://localhost:8080");
    assert!(config.skip);
}

#[test]
fn the_output_file_is_named_after_the_moment() {
    assert_eq!(output_path_for("2023-07-09_18-05-59"), "output-2023-07-09_18-05-59.ndjson");
    assert_eq!(output_path_for(""), "output-.ndjson");
}

#[test]
fn the_default_output_file_carries_date_and_time() {
    let path = default_output_path().expect("formatting current datetime");
    let stamp = path
        .strip_prefix("output-")
        .and_then(|rest| rest.strip_suffix(".ndjson"))
        .expect("the name has its frame");
    let shape: String = stamp.chars().map(|c| if c.is_ascii_digit() { '9' } else { c }).collect();
    assert_eq!(shape, "9999-99-99_99-99-99");
}

#[test]
fn a_chunk_adds_what_its_choices_hold() {
    let mut answer = String::from("Hel");
    let fresh = remote::absorb(
        &mut answer,
        &vec![Some("lo".to_string()), None, Some(", world".to_string())],
    );
    assert_eq!(fresh, "lo, world");
    assert_eq!(answer, "Hello, world");
    let nothing = remote::absorb(&mut answer, &vec![None]);
    assert_eq!(nothing, "");
    assert_eq!(remote::absorb(&mut answer, &Vec::new()), "");
    assert_eq!(answer, "Hello, world");
}

#[test]
fn the_child_reads_its_input_from_standard_input() {
    assert_eq!(
        prompt_eval::ui::child_arguments("out.ndjson", false),
        vec!["--show-output", "--output", "out.ndjson", "run", "-"]
    );
    assert_eq!(
        prompt_eval::ui::child_arguments("results/a b.ndjson", true),
        vec!["--use-gpu", "--show-output", "--output", "results/a b.ndjson", "run", "-"]
    );
}

#[test]
fn a_file_is_named_only_where_there_is_a_stamp() {
    assert_eq!(
        path_of_stamp(Some("2024-02-29_00-00-01".to_string())),
        Some("output-2024-02-29_00-00-01.ndjson".to_string())
    );
    assert_eq!(path_of_stamp(None), None);
}

#[test]
fn the_file_name_carries_the_moment_in_universal_time() {
    assert_eq!(output_path_at(0), Some("output-1970-01-01_00-00-00.ndjson".to_string()));
    assert_eq!(
        output_path_at(1_700_000_000),
        Some("output-2023-11-14_22-13-20.ndjson".to_string())
    );
    assert_eq!(
        output_path_at(1_709_164_800),
        Some("output-2024-02-29_00-00-00.ndjson".to_string())
    );
    assert_eq!(output_path_at(-1), Some("output-1969-12-31_23-59-59.ndjson".to_string()));
}

#[test]
fn a_moment_beyond_the_calendar_has_no_file_name() {
    assert_eq!(output_path_at(i64::MAX), None);
    assert_eq!(output_path_at(i64::MIN), None);
}

#[test]
fn the_default_file_name_is_that_of_the_present_moment() {
    let now = || {
        std::time::SystemTime::now()
            .duration_since(std::time::UNIX_EPOCH)
            .expect("the clock is past 1970")
            .as_secs() as i64
    };
    let before = now();
    let path = default_output_path();
    let after = now();
    assert!((before..=after).any(|seconds| output_path_at(seconds) == path));
}
