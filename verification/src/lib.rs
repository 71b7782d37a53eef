//! An exec-policy engine: given a shell command as an ordered list of
//! already-tokenized arguments, decide whether it is allowed, prompted for,
//! or forbidden.  Policies are written in a small sandboxed configuration
//! language whose only builtin is `prefix_rule`; a loaded policy is an
//! immutable rule set that commands are evaluated against.

use vstd::prelude::*;

pub mod decision;
pub mod error;
pub mod index;
pub mod laws;
pub mod parser;
pub mod policy;
pub mod rule;
pub mod strutil;

pub use decision::Decision;
pub use error::Error;
pub use parser::PolicyParser;
pub use policy::Evaluation;
pub use policy::Policy;
pub use rule::Rule;
pub use rule::RuleMatch;

verus! {

/// The policy script bundled with the library.  It ships no rules: the
/// engine takes no position on any command until a policy declares one.
pub const DEFAULT_POLICY_TEXT: &'static str = "# The bundled default policy declares no rules.\n";

/// Load the bundled default policy.
pub fn load_default_policy() -> (r: Result<Policy, Error>)
    ensures
        match r {
            Ok(p) => (parser::spec_load(DEFAULT_POLICY_TEXT@) matches Ok(rules) && p@ == rules),
            Err(e) => (parser::spec_load(DEFAULT_POLICY_TEXT@) matches Err(ev) && ev == e@),
        },
{
    let loader = PolicyParser::new("default.policy", DEFAULT_POLICY_TEXT);
    loader.parse()
}

} // verus!
