//! Engine error type.

use vstd::prelude::*;

verus! {

/// Errors raised by the engine. Each variant carries a human-readable
/// message; contracts speak of the variant, the message is diagnostics.
#[derive(Debug, Clone, PartialEq, Eq)]
pub enum EngineError {
    InvalidConfig(String),
    ContractViolation(String),
    BackendUnavailable(String),
    NotImplemented(String),
}

pub type EngineResult<T> = Result<T, EngineError>;

/// Formats `"{head}{value}{tail}"` for an error message.
///
/// Trusted wrapper over `format!`; the text is diagnostics and nothing is
/// stated about it.
#[verifier::external_body]
pub(crate) fn text_with_value(head: &str, value: u64, tail: &str) -> String {
    format!("{head}{value}{tail}")
}

/// Formats `"{head}{first}{middle}{second}{tail}"` for an error message.
///
/// Trusted wrapper over `format!`; the text is diagnostics and nothing is
/// stated about it.
#[verifier::external_body]
pub(crate) fn text_with_two_values(head: &str, first: u64, middle: &str, second: u64, tail: &str) -> String {
    format!("{head}{first}{middle}{second}{tail}")
}

/// Formats `"{head}{name}{tail}"` for an error message.
///
/// Trusted wrapper over `format!`; the text is diagnostics and nothing is
/// stated about it.
#[verifier::external_body]
pub(crate) fn text_with_name(head: &str, name: &str, tail: &str) -> String {
    format!("{head}{name}{tail}")
}

} // verus!
