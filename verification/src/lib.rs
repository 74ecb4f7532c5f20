//! The orchestration core of a harness that evaluates prompts.
//!
//! A run takes one prompt with its system text, a set of variables with
//! candidate values, and a list of models. [`variants`] expands the variables
//! into the variants of the prompt, [`text`] renders a variant into the two
//! texts, and [`orchestrator`] decides which model is asked next, with which
//! variant and under which progress number, and makes the record of each
//! answer. [`run`] states what holds of a run as a whole. [`local`] and
//! [`remote`] hold what is particular to the two kinds of models, [`output`]
//! the records and the name of the file that takes them, and [`ui`] what a
//! front end needs to start the harness as a child process.
//!
//! Loading models, asking them and writing records down is left to the
//! caller.

pub mod local;
pub mod orchestrator;
pub mod output;
pub mod remote;
pub mod run;
pub mod text;
pub mod ui;
pub mod variants;
