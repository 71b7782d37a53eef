//! The error taxonomy of the policy loader.  Every failure while loading a
//! policy script is one of these; evaluation itself never fails.

use vstd::prelude::*;

verus! {

/// A load-time error.  All of them abort the load: a policy is never
/// partially constructed.
#[derive(Debug, Clone, PartialEq, Eq)]
pub enum Error {
    /// A `decision` argument that is not one of the three known spellings;
    /// carries the raw input.
    InvalidDecision(String),
    /// A malformed `pattern` argument; carries a human-readable reason.
    InvalidPattern(String),
    /// A malformed `match` or `not_match` argument; carries a reason.
    InvalidExample(String),
    /// A declared positive example that the rule does not match.
    ExampleDidNotMatch { rule_id: String, example: String },
    /// A declared negative example that the rule does match.
    ExampleDidMatch { rule_id: String, example: String },
    /// Any failure reported by the configuration language itself: syntax,
    /// name and argument-shape errors; carries the underlying message.
    ConfigLanguage(String),
}

/// The mathematical model of an `Error`: the same shape over character
/// sequences.
pub enum ErrorV {
    InvalidDecision(Seq<char>),
    InvalidPattern(Seq<char>),
    InvalidExample(Seq<char>),
    ExampleDidNotMatch { rule_id: Seq<char>, example: Seq<char> },
    ExampleDidMatch { rule_id: Seq<char>, example: Seq<char> },
    ConfigLanguage(Seq<char>),
}

impl View for Error {
    type V = ErrorV;

    open spec fn view(&self) -> ErrorV {
        match self {
            Error::InvalidDecision(raw) => ErrorV::InvalidDecision(raw@),
            Error::InvalidPattern(reason) => ErrorV::InvalidPattern(reason@),
            Error::InvalidExample(reason) => ErrorV::InvalidExample(reason@),
            Error::ExampleDidNotMatch { rule_id, example } => ErrorV::ExampleDidNotMatch {
                rule_id: rule_id@,
                example: example@,
            },
            Error::ExampleDidMatch { rule_id, example } => ErrorV::ExampleDidMatch {
                rule_id: rule_id@,
                example: example@,
            },
            Error::ConfigLanguage(message) => ErrorV::ConfigLanguage(message@),
        }
    }
}

impl Error {
    /// The human-readable rendering of this error.
    pub fn message(&self) -> (r: String)
        ensures
            r@ == self.message_spec(),
    {
        match self {
            Error::InvalidDecision(raw) => String::from_str("invalid decision: ").concat(
                raw.as_str(),
            ),
            Error::InvalidPattern(reason) => String::from_str("invalid pattern element: ").concat(
                reason.as_str(),
            ),
            Error::InvalidExample(reason) => String::from_str("invalid example: ").concat(
                reason.as_str(),
            ),
            Error::ExampleDidNotMatch { rule_id, example } => String::from_str(
                "expected example to match rule `",
            ).concat(rule_id.as_str()).concat("`: ").concat(example.as_str()),
            Error::ExampleDidMatch { rule_id, example } => String::from_str(
                "expected example to not match rule `",
            ).concat(rule_id.as_str()).concat("`: ").concat(example.as_str()),
            Error::ConfigLanguage(message) => String::from_str("policy language error: ").concat(
                message.as_str(),
            ),
        }
    }

    /// What `message` returns, as a function of the error value.
    pub open spec fn message_spec(&self) -> Seq<char> {
        match self {
            Error::InvalidDecision(raw) => "invalid decision: "@ + raw@,
            Error::InvalidPattern(reason) => "invalid pattern element: "@ + reason@,
            Error::InvalidExample(reason) => "invalid example: "@ + reason@,
            Error::ExampleDidNotMatch { rule_id, example } => "expected example to match rule `"@
                + rule_id@ + "`: "@ + example@,
            Error::ExampleDidMatch { rule_id, example } => "expected example to not match rule `"@
                + rule_id@ + "`: "@ + example@,
            Error::ConfigLanguage(message) => "policy language error: "@ + message@,
        }
    }
}

} // verus!
