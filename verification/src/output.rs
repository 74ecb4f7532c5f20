//! The record of one completed run, and the name of the file that takes the
//! records.

use vstd::prelude::*;

verus! {

/// What one run of a prompt against a model gave.
pub struct RunOutput {
    /// The model that answered.
    pub name: String,
    /// The system text as the model received it.
    pub system: String,
    /// The user text as the model received it.
    pub user: String,
    /// The model's whole answer.
    pub response: String,
}

/// A record as plain text: what a [`RunOutput`] holds.
pub struct Record {
    pub name: Seq<char>,
    pub system: Seq<char>,
    pub user: Seq<char>,
    pub response: Seq<char>,
}

impl View for RunOutput {
    type V = Record;

    open spec fn view(&self) -> Record {
        Record {
            name: self.name@,
            system: self.system@,
            user: self.user@,
            response: self.response@,
        }
    }
}

/// The name of the output file for a run that began at the moment `stamp`.
pub open spec fn stamped_name(stamp: Seq<char>) -> Seq<char> {
    "output-"@ + stamp + ".ndjson"@
}

/// The form in which the moment of a run is written into the name of its
/// output file: date and time of day, to the second.
pub open spec fn stamp_form() -> Seq<char> {
    "[year]-[month]-[day]_[hour]-[minute]-[second]"@
}

/// What `time` writes for the moment that lies `seconds` seconds after the
/// beginning of 1970, in universal time and in the form that `description`
/// describes; nothing where it refuses the description or cannot write the
/// moment in it.
pub uninterp spec fn written_moment(description: Seq<char>, seconds: int) -> Option<Seq<char>>;

/// Reads the clock with `time::OffsetDateTime::now_utc` and gives the moment
/// as `OffsetDateTime::unix_timestamp` counts it, in whole seconds. Nothing is
/// claimed of the number.
#[verifier::external_body]
fn clock_seconds() -> (seconds: i64) {
    time::OffsetDateTime::now_utc().unix_timestamp()
}

/// Writes a moment down: `time::OffsetDateTime::from_unix_timestamp` makes the
/// moment of `seconds`, `time::format_description::parse` the form of
/// `description`, and `OffsetDateTime::format` the text. `None` when one of
/// the three refuses. The text depends on the two arguments alone.
#[verifier::external_body]
fn write_moment(description: &str, seconds: i64) -> (stamp: Option<String>)
    ensures
        stamp.deep_view() == written_moment(description@, seconds as int),
{
    let format = time::format_description::parse(description).ok()?;
    let moment = time::OffsetDateTime::from_unix_timestamp(seconds).ok()?;
    moment.format(&format).ok()
}

/// The name of the output file for a run that began at the moment `stamp`.
pub fn output_path_for(stamp: &str) -> (path: String)
    ensures
        path@ == stamped_name(stamp@),
{
    String::from_str("output-").concat(stamp).concat(".ndjson")
}

/// The name of the output file for what the clock gave: the file is named
/// after the stamp where there is one, and there is no name without a stamp.
pub fn path_of_stamp(stamp: Option<String>) -> (path: Option<String>)
    ensures
        match stamp {
            Some(s) => path matches Some(p) && p@ == stamped_name(s@),
            None => path is None,
        },
{
    match stamp {
        Some(s) => Some(output_path_for(s.as_str())),
        None => None,
    }
}

/// The name of the output file for a run that began `seconds` seconds after
/// the beginning of 1970: it carries that moment's date and time of day in
/// universal time, written in the form [`stamp_form`]. `None` when the moment
/// cannot be written down.
pub fn output_path_at(seconds: i64) -> (path: Option<String>)
    ensures
        match written_moment(stamp_form(), seconds as int) {
            Some(s) => path matches Some(p) && p@ == stamped_name(s),
            None => path is None,
        },
{
    path_of_stamp(write_moment("[year]-[month]-[day]_[hour]-[minute]-[second]", seconds))
}

/// The name of the output file where the caller chose none: it is the name
/// for the moment that the clock shows. `None` when that moment cannot be
/// written down.
pub fn default_output_path() -> (path: Option<String>)
    ensures
        exists|seconds: int|
            match #[trigger] written_moment(stamp_form(), seconds) {
                Some(s) => path matches Some(p) && p@ == stamped_name(s),
                None => path is None,
            },
{
    output_path_at(clock_seconds())
}

} // verus!
