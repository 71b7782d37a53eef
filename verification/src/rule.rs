//! The rule data model and matcher: per-position pattern tokens, prefix
//! patterns, rules, and the match evidence they produce.

use vstd::prelude::*;

use crate::decision::Decision;
use crate::decision::decision_str;
use crate::decision::render_decision;
use crate::error::Error;
use crate::error::ErrorV;
use crate::strutil::join_command;
use crate::strutil::join_command_spec;
use crate::strutil::join_with;
use crate::strutil::joined_with;
use crate::strutil::str_eq;

verus! {

/// Matches a single command token: either one fixed string, or any of a
/// non-empty set of alternative strings.
#[derive(Debug, Eq, PartialEq)]
pub enum PatternToken {
    Single(String),
    Alts(Vec<String>),
}

/// The mathematical model of a `PatternToken`.
pub enum PatternTokenV {
    Single(Seq<char>),
    Alts(Seq<Seq<char>>),
}

impl View for PatternToken {
    type V = PatternTokenV;

    open spec fn view(&self) -> PatternTokenV {
        match self {
            PatternToken::Single(expected) => PatternTokenV::Single(expected@),
            PatternToken::Alts(alternatives) => PatternTokenV::Alts(alternatives.deep_view()),
        }
    }
}

impl DeepView for PatternToken {
    type V = PatternTokenV;

    open spec fn deep_view(&self) -> PatternTokenV {
        self.view()
    }
}

impl Clone for PatternToken {
    /// A clone models the same pattern token.
    fn clone(&self) -> (res: Self)
        ensures
            res@ == self@,
    {
        match self {
            PatternToken::Single(expected) => PatternToken::Single(expected.clone()),
            PatternToken::Alts(alternatives) => {
                let alts = alternatives.clone();
                proof {
                    assert(alts.deep_view() =~= alternatives.deep_view());
                }
                PatternToken::Alts(alts)
            },
        }
    }
}

/// Whether a command token matches a pattern token: byte-exact equality with
/// the literal, or with some alternative.
pub open spec fn token_matches(t: PatternTokenV, token: Seq<char>) -> bool {
    match t {
        PatternTokenV::Single(expected) => expected == token,
        PatternTokenV::Alts(alternatives) => alternatives.contains(token),
    }
}

/// The alternatives a pattern token accepts, as a sequence: one element for
/// a literal, each element for an alternatives token.
pub open spec fn token_alternatives(t: PatternTokenV) -> Seq<Seq<char>> {
    match t {
        PatternTokenV::Single(expected) => seq![expected],
        PatternTokenV::Alts(alternatives) => alternatives,
    }
}

impl PatternToken {
    /// Whether `token` matches this pattern token.
    pub fn matches(&self, token: &str) -> (r: bool)
        ensures
            r == token_matches(self@, token@),
    {
        match self {
            PatternToken::Single(expected) => str_eq(expected.as_str(), token),
            PatternToken::Alts(alternatives) => {
                let n = alternatives.len();
                let mut i: usize = 0;
                while i < n
                    invariant
                        n == alternatives.len(),
                        i <= n,
                        self matches PatternToken::Alts(alts) && alts == alternatives,
                        forall|j: int| 0 <= j < i ==> alternatives.deep_view()[j] != token@,
                    decreases n - i,
                {
                    if str_eq(alternatives[i].as_str(), token) {
                        proof {
                            assert(alternatives.deep_view()[i as int] == token@);
                            assert(alternatives.deep_view().contains(token@));
                        }
                        return true;
                    }
                    i += 1;
                }
                false
            },
        }
    }

    /// The tokens this pattern token accepts, copied out.
    pub fn alternatives(&self) -> (r: Vec<String>)
        ensures
            r.deep_view() == token_alternatives(self@),
    {
        match self {
            PatternToken::Single(expected) => {
                let mut out: Vec<String> = Vec::new();
                out.push(expected.clone());
                proof {
                    assert(out.deep_view() =~= token_alternatives(self@));
                }
                out
            },
            PatternToken::Alts(alternatives) => {
                let out = alternatives.clone();
                proof {
                    assert(out.deep_view() =~= alternatives.deep_view());
                }
                out
            },
        }
    }
}

/// A prefix matcher for commands.  The first position is always a literal
/// string, since policies index rules by their first token; positions after
/// it may be literals or alternatives.
#[derive(Debug, Eq, PartialEq)]
pub struct PrefixPattern {
    pub first: String,
    pub rest: Vec<PatternToken>,
}

/// The mathematical model of a `PrefixPattern`.
pub struct PrefixPatternV {
    pub first: Seq<char>,
    pub rest: Seq<PatternTokenV>,
}

impl View for PrefixPattern {
    type V = PrefixPatternV;

    open spec fn view(&self) -> PrefixPatternV {
        PrefixPatternV { first: self.first@, rest: self.rest.deep_view() }
    }
}

/// Copy a pattern-token list; the copy models the same tokens.
pub fn clone_tokens(tokens: &Vec<PatternToken>) -> (r: Vec<PatternToken>)
    ensures
        r.deep_view() == tokens.deep_view(),
{
    let r = tokens.clone();
    proof {
        assert forall|i: int| 0 <= i < r.len() implies r.deep_view()[i]
            == tokens.deep_view()[i] by {
            assert(cloned::<PatternToken>(tokens[i], r[i]));
        }
        assert(r.deep_view() =~= tokens.deep_view());
    }
    r
}

impl Clone for PrefixPattern {
    /// A clone models the same pattern.
    fn clone(&self) -> (res: Self)
        ensures
            res@ == self@,
    {
        PrefixPattern { first: self.first.clone(), rest: clone_tokens(&self.rest) }
    }
}

/// The number of positions a pattern constrains: the first token plus the
/// tail.  A prefix pattern is never empty.
pub open spec fn pattern_len(p: PrefixPatternV) -> nat {
    1 + p.rest.len()
}

/// Whether a command matches a prefix pattern: the command is at least as
/// long as the pattern, its first token equals the pattern's first literal,
/// and every tail position matches.  Tokens beyond the pattern's length are
/// ignored.
pub open spec fn pattern_matches(p: PrefixPatternV, cmd: Seq<Seq<char>>) -> bool {
    &&& cmd.len() >= pattern_len(p)
    &&& cmd[0] == p.first
    &&& forall|i: int| 0 <= i < p.rest.len() ==> token_matches(p.rest[i], cmd[i + 1])
}

impl PrefixPattern {
    /// The number of positions this pattern constrains.
    pub fn len(&self) -> (r: usize)
        requires
            self.rest.len() < usize::MAX,
        ensures
            r == pattern_len(self@),
    {
        self.rest.len() + 1
    }

    /// A prefix pattern always holds its first token, so it is never empty.
    pub fn is_empty(&self) -> (r: bool)
        ensures
            !r,
    {
        false
    }

    /// Match a command against this pattern.  On success, yield the matched
    /// prefix: the first `pattern_len` tokens of the command, copied out.
    pub fn matches_prefix(&self, cmd: &[String]) -> (r: Option<Vec<String>>)
        ensures
            match r {
                Some(prefix) => pattern_matches(self@, cmd.deep_view()) && prefix.deep_view()
                    == cmd.deep_view().take(pattern_len(self@) as int),
                None => !pattern_matches(self@, cmd.deep_view()),
            },
    {
        let n = self.rest.len();
        if cmd.len() <= n {
            return None;
        }
        if !str_eq(cmd[0].as_str(), self.first.as_str()) {
            return None;
        }
        let mut i: usize = 0;
        while i < n
            invariant
                n == self.rest.len(),
                i <= n,
                cmd.deep_view().len() > n,
                forall|j: int| 0 <= j < i ==> token_matches(
                    self@.rest[j],
                    cmd.deep_view()[j + 1],
                ),
            decreases n - i,
        {
            if !self.rest[i].matches(cmd[i + 1].as_str()) {
                proof {
                    assert(!token_matches(self@.rest[i as int], cmd.deep_view()[i as int + 1]));
                }
                return None;
            }
            i += 1;
        }
        let mut prefix: Vec<String> = Vec::new();
        let mut j: usize = 0;
        while j <= n
            invariant
                n == self.rest.len(),
                j <= n + 1,
                cmd.deep_view().len() > n,
                prefix.deep_view() =~= cmd.deep_view().take(j as int),
            decreases n + 1 - j,
        {
            let ghost pre = prefix.deep_view();
            let token = cmd[j].clone();
            proof {
                assert(token@ == cmd.deep_view()[j as int]);
            }
            prefix.push(token);
            j += 1;
            proof {
                assert(prefix.deep_view() =~= pre.push(cmd.deep_view()[j - 1]));
                assert(prefix.deep_view() =~= cmd.deep_view().take(j as int));
            }
        }
        Some(prefix)
    }
}

/// Evidence of a successful match: the matching rule's id, the command
/// tokens the pattern covered (copied out), and the rule's decision.
#[derive(Debug, Eq, PartialEq)]
pub enum RuleMatch {
    PrefixRuleMatch { rule_id: String, matched_prefix: Vec<String>, decision: Decision },
}

/// The mathematical model of a `RuleMatch`.
pub struct RuleMatchV {
    pub rule_id: Seq<char>,
    pub matched_prefix: Seq<Seq<char>>,
    pub decision: Decision,
}

impl View for RuleMatch {
    type V = RuleMatchV;

    open spec fn view(&self) -> RuleMatchV {
        match self {
            RuleMatch::PrefixRuleMatch { rule_id, matched_prefix, decision } => RuleMatchV {
                rule_id: rule_id@,
                matched_prefix: matched_prefix.deep_view(),
                decision: *decision,
            },
        }
    }
}

impl DeepView for RuleMatch {
    type V = RuleMatchV;

    open spec fn deep_view(&self) -> RuleMatchV {
        self.view()
    }
}

impl Clone for RuleMatch {
    /// A clone models the same evidence.
    fn clone(&self) -> (res: Self)
        ensures
            res@ == self@,
    {
        match self {
            RuleMatch::PrefixRuleMatch { rule_id, matched_prefix, decision } => {
                let prefix = matched_prefix.clone();
                proof {
                    assert(prefix.deep_view() =~= matched_prefix.deep_view());
                }
                RuleMatch::PrefixRuleMatch {
                    rule_id: rule_id.clone(),
                    matched_prefix: prefix,
                    decision: *decision,
                }
            },
        }
    }
}

impl RuleMatch {
    /// The matched rule's decision.
    pub fn decision(&self) -> (r: Decision)
        ensures
            r == self@.decision,
    {
        match self {
            RuleMatch::PrefixRuleMatch { decision, .. } => *decision,
        }
    }
}

/// An identified prefix pattern with a decision: one entry of a policy.
#[derive(Debug, Eq, PartialEq)]
pub struct PrefixRule {
    pub id: String,
    pub pattern: PrefixPattern,
    pub decision: Decision,
}

/// The mathematical model of a `PrefixRule` (and of a `Rule`).
pub struct PrefixRuleV {
    pub id: Seq<char>,
    pub pattern: PrefixPatternV,
    pub decision: Decision,
}

impl View for PrefixRule {
    type V = PrefixRuleV;

    open spec fn view(&self) -> PrefixRuleV {
        PrefixRuleV { id: self.id@, pattern: self.pattern@, decision: self.decision }
    }
}

impl Clone for PrefixRule {
    /// A clone models the same rule.
    fn clone(&self) -> (res: Self)
        ensures
            res@ == self@,
    {
        PrefixRule { id: self.id.clone(), pattern: self.pattern.clone(), decision: self.decision }
    }
}

/// The evidence a rule yields when it matches a command.
pub open spec fn rule_match_of(r: PrefixRuleV, cmd: Seq<Seq<char>>) -> RuleMatchV {
    RuleMatchV {
        rule_id: r.id,
        matched_prefix: cmd.take(pattern_len(r.pattern) as int),
        decision: r.decision,
    }
}

/// What `validate_examples` returns: the first positive example the rule
/// fails to match, else the first negative example it does match, else
/// nothing.  Examples are checked in declaration order, positives first.
pub open spec fn validate_spec(
    r: PrefixRuleV,
    positives: Seq<Seq<Seq<char>>>,
    negatives: Seq<Seq<Seq<char>>>,
) -> Option<ErrorV>
    decreases positives.len(), negatives.len(),
{
    if positives.len() > 0 {
        if !pattern_matches(r.pattern, positives[0]) {
            Some(
                ErrorV::ExampleDidNotMatch {
                    rule_id: r.id,
                    example: join_command_spec(positives[0]),
                },
            )
        } else {
            validate_spec(r, positives.drop_first(), negatives)
        }
    } else if negatives.len() > 0 {
        if pattern_matches(r.pattern, negatives[0]) {
            Some(ErrorV::ExampleDidMatch { rule_id: r.id, example: join_command_spec(negatives[0]) })
        } else {
            validate_spec(r, positives, negatives.drop_first())
        }
    } else {
        None
    }
}

impl PrefixRule {
    /// Match a command; on success package the id, the matched prefix and
    /// the decision as evidence.
    pub fn matches(&self, cmd: &[String]) -> (r: Option<RuleMatch>)
        ensures
            match r {
                Some(m) => pattern_matches(self@.pattern, cmd.deep_view()) && m@ == rule_match_of(
                    self@,
                    cmd.deep_view(),
                ),
                None => !pattern_matches(self@.pattern, cmd.deep_view()),
            },
    {
        match self.pattern.matches_prefix(cmd) {
            Some(matched_prefix) => Some(
                RuleMatch::PrefixRuleMatch {
                    rule_id: self.id.clone(),
                    matched_prefix,
                    decision: self.decision,
                },
            ),
            None => None,
        }
    }

    /// Check the rule's inline examples: it must match every positive
    /// example and no negative one.  The first violation is returned.
    pub fn validate_examples(&self, matches: &[Vec<String>], not_matches: &[Vec<String>]) -> (r:
        Result<(), Error>)
        ensures
            match r {
                Ok(_) => validate_spec(
                    self@,
                    matches.deep_view(),
                    not_matches.deep_view(),
                ) is None,
                Err(e) => validate_spec(self@, matches.deep_view(), not_matches.deep_view())
                    == Some(e@),
            },
    {
        let ghost pos = matches.deep_view();
        let ghost neg = not_matches.deep_view();
        proof {
            assert(pos.skip(0) =~= pos);
        }
        let mut i: usize = 0;
        while i < matches.len()
            invariant
                i <= matches.len(),
                pos == matches.deep_view(),
                neg == not_matches.deep_view(),
                pos.len() == matches.len(),
                validate_spec(self@, pos, neg) == validate_spec(self@, pos.skip(i as int), neg),
            decreases matches.len() - i,
        {
            proof {
                assert(pos.skip(i as int)[0] == pos[i as int]);
                assert(pos.skip(i as int).drop_first() =~= pos.skip(i + 1 as int));
            }
            if self.pattern.matches_prefix(matches[i].as_slice()).is_none() {
                return Err(
                    Error::ExampleDidNotMatch {
                        rule_id: self.id.clone(),
                        example: join_command(&matches[i]),
                    },
                );
            }
            i += 1;
        }
        proof {
            assert(pos.skip(matches.len() as int) =~= Seq::<Seq<Seq<char>>>::empty());
            assert(neg.skip(0) =~= neg);
        }
        let mut k: usize = 0;
        while k < not_matches.len()
            invariant
                k <= not_matches.len(),
                pos == matches.deep_view(),
                neg == not_matches.deep_view(),
                neg.len() == not_matches.len(),
                validate_spec(self@, pos, neg) == validate_spec(
                    self@,
                    Seq::<Seq<Seq<char>>>::empty(),
                    neg.skip(k as int),
                ),
            decreases not_matches.len() - k,
        {
            proof {
                assert(neg.skip(k as int)[0] == neg[k as int]);
                assert(neg.skip(k as int).drop_first() =~= neg.skip(k + 1 as int));
            }
            if self.pattern.matches_prefix(not_matches[k].as_slice()).is_some() {
                return Err(
                    Error::ExampleDidMatch {
                        rule_id: self.id.clone(),
                        example: join_command(&not_matches[k]),
                    },
                );
            }
            k += 1;
        }
        proof {
            assert(neg.skip(not_matches.len() as int) =~= Seq::<Seq<Seq<char>>>::empty());
        }
        Ok(())
    }

    /// A one-line description of the rule, used when reporting it.
    pub fn description(&self) -> (r: String)
        ensures
            r@ == description_spec(self@),
    {
        String::from_str("prefix_rule(pattern = [").concat(
            render_pattern(&self.pattern).as_str(),
        ).concat("], decision = ").concat(render_decision(self.decision)).concat(")")
    }
}

/// A policy rule.  Prefix rules are the only kind.
#[derive(Debug, Eq, PartialEq)]
pub enum Rule {
    Prefix(PrefixRule),
}

impl View for Rule {
    type V = PrefixRuleV;

    open spec fn view(&self) -> PrefixRuleV {
        match self {
            Rule::Prefix(rule) => rule@,
        }
    }
}

impl DeepView for Rule {
    type V = PrefixRuleV;

    open spec fn deep_view(&self) -> PrefixRuleV {
        self.view()
    }
}

impl Clone for Rule {
    /// A clone models the same rule.
    fn clone(&self) -> (res: Self)
        ensures
            res@ == self@,
    {
        match self {
            Rule::Prefix(rule) => Rule::Prefix(rule.clone()),
        }
    }
}

impl Rule {
    /// The program the rule applies to: its pattern's first token.
    pub fn program(&self) -> (r: &str)
        ensures
            r@ == self@.pattern.first,
    {
        match self {
            Rule::Prefix(rule) => rule.pattern.first.as_str(),
        }
    }

    /// Match a command against this rule.
    pub fn matches(&self, cmd: &[String]) -> (r: Option<RuleMatch>)
        ensures
            match r {
                Some(m) => pattern_matches(self@.pattern, cmd.deep_view()) && m@ == rule_match_of(
                    self@,
                    cmd.deep_view(),
                ),
                None => !pattern_matches(self@.pattern, cmd.deep_view()),
            },
    {
        match self {
            Rule::Prefix(rule) => rule.matches(cmd),
        }
    }

    /// Check the rule's inline examples.
    pub fn validate_examples(&self, matches: &[Vec<String>], not_matches: &[Vec<String>]) -> (r:
        Result<(), Error>)
        ensures
            match r {
                Ok(_) => validate_spec(
                    self@,
                    matches.deep_view(),
                    not_matches.deep_view(),
                ) is None,
                Err(e) => validate_spec(self@, matches.deep_view(), not_matches.deep_view())
                    == Some(e@),
            },
    {
        match self {
            Rule::Prefix(rule) => rule.validate_examples(matches, not_matches),
        }
    }

    /// A one-line description of the rule.
    pub fn description(&self) -> (r: String)
        ensures
            r@ == description_spec(self@),
    {
        match self {
            Rule::Prefix(rule) => rule.description(),
        }
    }
}

/// What `render_pattern_token` returns: the literal itself, or the
/// alternatives joined inside brackets.
pub open spec fn render_token_spec(t: PatternTokenV) -> Seq<char> {
    match t {
        PatternTokenV::Single(value) => value,
        PatternTokenV::Alts(values) => "["@ + joined_with(values, ", "@) + "]"@,
    }
}

/// What `render_pattern` returns: every position's rendering, joined.
pub open spec fn render_pattern_spec(p: PrefixPatternV) -> Seq<char> {
    joined_with(seq![p.first] + p.rest.map_values(|t: PatternTokenV| render_token_spec(t)), ", "@)
}

/// What `Rule::description` returns.
pub open spec fn description_spec(r: PrefixRuleV) -> Seq<char> {
    "prefix_rule(pattern = ["@ + render_pattern_spec(r.pattern) + "], decision = "@ + decision_str(
        r.decision,
    ) + ")"@
}

/// Render one pattern token for display.
pub fn render_pattern_token(token: &PatternToken) -> (r: String)
    ensures
        r@ == render_token_spec(token@),
{
    match token {
        PatternToken::Single(value) => value.clone(),
        PatternToken::Alts(values) => String::from_str("[").concat(
            join_with(values, ", ").as_str(),
        ).concat("]"),
    }
}

/// Render a whole pattern for display.
pub fn render_pattern(pattern: &PrefixPattern) -> (r: String)
    ensures
        r@ == render_pattern_spec(pattern@),
{
    let ghost goal = seq![pattern@.first] + pattern@.rest.map_values(
        |t: PatternTokenV| render_token_spec(t),
    );
    let mut tokens: Vec<String> = Vec::new();
    tokens.push(pattern.first.clone());
    let n = pattern.rest.len();
    let mut i: usize = 0;
    while i < n
        invariant
            n == pattern.rest.len(),
            i <= n,
            goal == seq![pattern@.first] + pattern@.rest.map_values(
                |t: PatternTokenV| render_token_spec(t),
            ),
            goal.len() == n + 1,
            tokens.deep_view() =~= goal.take(i + 1 as int),
        decreases n - i,
    {
        let ghost pre = tokens.deep_view();
        tokens.push(render_pattern_token(&pattern.rest[i]));
        i += 1;
        proof {
            assert(goal[i as int] == render_token_spec(pattern@.rest[i - 1]));
            assert(tokens.deep_view() =~= pre.push(goal[i as int]));
            assert(tokens.deep_view() =~= goal.take(i + 1 as int));
        }
    }
    proof {
        assert(goal.take(n + 1 as int) =~= goal);
    }
    join_with(&tokens, ", ")
}

/// A token wrapped in double quotes, as the evidence rendering shows it.
pub open spec fn quoted(s: Seq<char>) -> Seq<char> {
    "\""@ + s + "\""@
}

/// What `RuleMatch::render` returns.
pub open spec fn rendered_match(m: RuleMatchV) -> Seq<char> {
    "PrefixRuleMatch { matched_prefix: ["@ + joined_with(
        m.matched_prefix.map_values(|s: Seq<char>| quoted(s)),
        ", "@,
    ) + "], decision: "@ + decision_str(m.decision) + " }"@
}

impl RuleMatch {
    /// A one-line rendering of the evidence.
    pub fn render(&self) -> (r: String)
        ensures
            r@ == rendered_match(self@),
    {
        match self {
            RuleMatch::PrefixRuleMatch { rule_id: _, matched_prefix, decision } => {
                let ghost goal = self@.matched_prefix.map_values(|s: Seq<char>| quoted(s));
                let mut parts: Vec<String> = Vec::new();
                let n = matched_prefix.len();
                let mut i: usize = 0;
                proof {
                    assert(parts.deep_view() =~= goal.take(0));
                }
                while i < n
                    invariant
                        n == matched_prefix.len(),
                        i <= n,
                        goal == matched_prefix.deep_view().map_values(|s: Seq<char>| quoted(s)),
                        goal.len() == n,
                        parts.deep_view() =~= goal.take(i as int),
                    decreases n - i,
                {
                    let ghost pre = parts.deep_view();
                    let part = String::from_str("\"").concat(matched_prefix[i].as_str()).concat(
                        "\"",
                    );
                    proof {
                        assert(part@ == goal[i as int]);
                    }
                    parts.push(part);
                    i += 1;
                    proof {
                        assert(parts.deep_view() =~= pre.push(goal[i - 1]));
                        assert(parts.deep_view() =~= goal.take(i as int));
                    }
                }
                proof {
                    assert(goal.take(n as int) =~= goal);
                }
                String::from_str("PrefixRuleMatch { matched_prefix: [").concat(
                    join_with(&parts, ", ").as_str(),
                ).concat("], decision: ").concat(render_decision(*decision)).concat(" }")
            },
        }
    }
}

} // verus!
