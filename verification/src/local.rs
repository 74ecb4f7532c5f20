//! Locally loaded models: their configuration, the check of their
//! architecture tags, and the prompt that a model's template makes of an entry.

use crate::text::{replace, replace_all};
use vstd::prelude::*;

verus! {

/// A model that is loaded from disk and run in this process.
pub struct ModelConfig {
    /// Where the model's weights lie. The path also names the model in the
    /// results.
    pub path: String,
    /// The tag of the model's architecture.
    pub architecture: String,
    /// Where the model's prompt template lies.
    pub template_path: String,
    /// Whether the run leaves this model out.
    pub skip: bool,
}

/// Why a set of model configurations is refused before anything runs.
pub enum ConfigError {
    /// The configuration at `index` names an architecture that is not
    /// supported.
    InvalidArchitecture { index: usize, architecture: String },
}

impl ConfigError {
    /// The error in words.
    pub fn message(&self) -> (text: String)
        ensures
            match self {
                ConfigError::InvalidArchitecture { architecture, .. } => text@
                    == "invalid model architecture: "@ + architecture@,
            },
    {
        match self {
            ConfigError::InvalidArchitecture { architecture, .. } => {
                String::from_str("invalid model architecture: ").concat(architecture.as_str())
            },
        }
    }
}

/// Whether `llm` takes `tag` for the name of a model architecture.
pub uninterp spec fn architecture_known(tag: Seq<char>) -> bool;

/// Asks `llm::ModelArchitecture::from_str` whether it accepts the tag. The
/// answer depends on the tag alone.
#[verifier::external_body]
pub(crate) fn parses_as_architecture(tag: &str) -> (known: bool)
    ensures
        known == architecture_known(tag@),
{
    <llm::ModelArchitecture as std::str::FromStr>::from_str(tag).is_ok()
}

/// The position of the first `false` among the answers, if there is one.
pub fn first_unknown(known: &Vec<bool>) -> (found: Option<usize>)
    ensures
        match found {
            Some(i) => i < known.len() && !known[i as int] && forall|j: int|
                0 <= j < i ==> known[j],
            None => forall|j: int| 0 <= j < known.len() ==> known[j],
        },
{
    let mut i: usize = 0;
    while i < known.len()
        invariant
            i <= known.len(),
            forall|j: int| 0 <= j < i ==> known[j],
        decreases known.len() - i,
    {
        if !known[i] {
            return Some(i);
        }
        i += 1;
    }
    None
}

/// Whether every configuration names a known architecture.
pub open spec fn all_known(configs: Seq<ModelConfig>) -> bool {
    forall|j: int| 0 <= j < configs.len() ==> architecture_known((#[trigger] configs[j]).architecture@)
}

/// Whether `error` reports the first configuration whose architecture is not
/// known.
pub open spec fn reports_first_unknown(configs: Seq<ModelConfig>, error: ConfigError) -> bool {
    match error {
        ConfigError::InvalidArchitecture { index, architecture } => {
            &&& index < configs.len()
            &&& !architecture_known(configs[index as int].architecture@)
            &&& all_known(configs.take(index as int))
            &&& architecture@ == configs[index as int].architecture@
        },
    }
}

/// Checks the architecture tag of every configuration, the skipped ones too.
/// The first tag that is not known is reported with its position.
pub fn validate(configs: &Vec<ModelConfig>) -> (checked: Result<(), ConfigError>)
    ensures
        match checked {
            Ok(_) => all_known(configs@),
            Err(error) => reports_first_unknown(configs@, error),
        },
{
    let mut known: Vec<bool> = Vec::new();
    let mut i: usize = 0;
    while i < configs.len()
        invariant
            i <= configs.len(),
            known.len() == i,
            forall|j: int|
                0 <= j < i ==> known[j] == architecture_known(
                    (#[trigger] configs[j]).architecture@,
                ),
        decreases configs.len() - i,
    {
        known.push(parses_as_architecture(configs[i].architecture.as_str()));
        i += 1;
    }
    match first_unknown(&known) {
        Some(index) => Err(
            ConfigError::InvalidArchitecture {
                index,
                architecture: configs[index].architecture.clone(),
            },
        ),
        None => Ok(()),
    }
}

/// The prompt that a model's template makes of an entry: the template with
/// its system marker replaced by the system text and then its prompt marker
/// replaced by the user text.
pub open spec fn filled_template(template: Seq<char>, system: Seq<char>, user: Seq<char>) -> Seq<
    char,
> {
    replace_all(replace_all(template, "{{SYSTEM}}"@, system), "{{PROMPT}}"@, user)
}

/// Fills a model's template with the system text and the user text of an
/// entry.
pub fn prompt_in_template(template: &str, system: &str, user: &str) -> (prompt: String)
    ensures
        prompt@ == filled_template(template@, system@, user@),
{
    let with_system = replace(template, "{{SYSTEM}}", system);
    replace(with_system.as_str(), "{{PROMPT}}", user)
}

} // verus!
