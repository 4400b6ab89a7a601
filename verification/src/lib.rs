//! Pattern-aware argument templates for running one command per input line.
//!
//! A template such as `mv {1} {2..:-}` is compiled once; every input line is
//! matched against a regular expression and the captured fields are
//! substituted into the template to give the arguments of one invocation.
//!
//! - [`text`]: characters, decimal numbers and joining.
//! - [`range`]: selectors over numbered captures and what they select.
//! - [`pattern`]: compiled patterns; the only module that calls the `regex`
//!   crate.
//! - [`context`]: what one line offers to a template.
//! - [`template`]: the field grammar, the compiler of templates and their
//!   instantiation.
//! - [`run`]: the settings of a run and the arguments it gives for a line.
//! - [`dispatch`]: the course of a run over its input.

pub mod context;
pub mod dispatch;
pub mod pattern;
pub mod range;
pub mod run;
pub mod template;
pub mod text;
