//! The three-valued verdict attached to a rule, totally ordered by
//! strictness: `Allow < Prompt < Forbidden`.  This order is the sole
//! mechanism used to combine the decisions of several matching rules.

use vstd::prelude::*;

use crate::error::Error;

verus! {

/// A rule's verdict.  The declaration order gives the strictness order.
#[derive(Clone, Copy, Debug, PartialEq, Eq, PartialOrd, Ord, Hash, Structural)]
pub enum Decision {
    Allow,
    Prompt,
    Forbidden,
}

/// The strictness rank of a decision: a stricter decision has a larger rank.
pub open spec fn strictness(d: Decision) -> int {
    match d {
        Decision::Allow => 0,
        Decision::Prompt => 1,
        Decision::Forbidden => 2,
    }
}

/// The stricter of two decisions, the `max` under the strictness order.
pub open spec fn stricter_spec(a: Decision, b: Decision) -> Decision {
    if strictness(b) > strictness(a) {
        b
    } else {
        a
    }
}

/// What `Decision::parse` accepts: exactly the three lowercase spellings.
pub open spec fn parse_decision_spec(raw: Seq<char>) -> Option<Decision> {
    if raw == "allow"@ {
        Some(Decision::Allow)
    } else if raw == "prompt"@ {
        Some(Decision::Prompt)
    } else if raw == "forbidden"@ {
        Some(Decision::Forbidden)
    } else {
        None
    }
}

/// The lowercase serialization of a decision, the same spelling `parse`
/// accepts.
pub open spec fn decision_str(d: Decision) -> Seq<char> {
    match d {
        Decision::Allow => "allow"@,
        Decision::Prompt => "prompt"@,
        Decision::Forbidden => "forbidden"@,
    }
}

impl Decision {
    /// Parse one of `"allow"`, `"prompt"`, `"forbidden"`; any other string
    /// fails with `InvalidDecision` carrying the raw input.
    pub fn parse(raw: &str) -> (r: Result<Decision, Error>)
        ensures
            match r {
                Ok(d) => parse_decision_spec(raw@) == Some(d),
                Err(e) => parse_decision_spec(raw@) is None && (e matches Error::InvalidDecision(s)
                    && s@ == raw@),
            },
    {
        if crate::strutil::str_eq(raw, "allow") {
            Ok(Decision::Allow)
        } else if crate::strutil::str_eq(raw, "prompt") {
            Ok(Decision::Prompt)
        } else if crate::strutil::str_eq(raw, "forbidden") {
            Ok(Decision::Forbidden)
        } else {
            Err(Error::InvalidDecision(String::from_str(raw)))
        }
    }

    /// The stricter of `self` and `other`.
    pub fn stricter(self, other: Decision) -> (r: Decision)
        ensures
            r == stricter_spec(self, other),
            strictness(r) >= strictness(self) && strictness(r) >= strictness(other),
            r == self || r == other,
    {
        match (self, other) {
            (Decision::Forbidden, _) => Decision::Forbidden,
            (_, Decision::Forbidden) => Decision::Forbidden,
            (Decision::Prompt, _) => Decision::Prompt,
            (_, Decision::Prompt) => Decision::Prompt,
            _ => Decision::Allow,
        }
    }
}

/// The lowercase rendering of a decision, used both in rule descriptions
/// and in the serialized verdict.
pub fn render_decision(decision: Decision) -> (r: &'static str)
    ensures
        r@ == decision_str(decision),
{
    match decision {
        Decision::Allow => "allow",
        Decision::Prompt => "prompt",
        Decision::Forbidden => "forbidden",
    }
}

} // verus!
