//! The engine's guarantees, stated and proved over the models that the
//! executable functions' contracts use: `eval_spec` for `Policy::check`,
//! `validate_spec` for example validation, and `fan_out` for the loader.

use vstd::prelude::*;

use crate::decision::strictness;
use crate::policy::EvaluationV;
use crate::policy::eval_spec;
use crate::policy::lemma_no_rule_matches;
use crate::policy::lemma_strictest_is_max;
use crate::policy::matched_evidence;
use crate::policy::matching_rules;
use crate::policy::strictest_of;
use crate::rule::PatternTokenV;
use crate::rule::PrefixPatternV;
use crate::rule::PrefixRuleV;
use crate::rule::pattern_len;
use crate::rule::pattern_matches;
use crate::rule::rule_match_of;
use crate::rule::token_matches;
use crate::rule::validate_spec;

verus! {

/// Evaluating the empty command yields `NoMatch`, whatever the policy: no
/// prefix pattern is empty, so none can cover it.
pub proof fn lemma_empty_command(rules: Seq<PrefixRuleV>)
    ensures
        eval_spec(rules, Seq::empty()) == EvaluationV::NoMatch,
{
    assert(forall|i: int|
        0 <= i < rules.len() ==> !pattern_matches(
            #[trigger] rules[i].pattern,
            Seq::<Seq<char>>::empty(),
        ));
    lemma_no_rule_matches(rules, Seq::empty());
}

/// If no rule's first pattern token equals the command's first token, the
/// verdict is `NoMatch`.
pub proof fn lemma_first_token_index(rules: Seq<PrefixRuleV>, cmd: Seq<Seq<char>>)
    requires
        cmd.len() > 0,
        forall|i: int| 0 <= i < rules.len() ==> #[trigger] rules[i].pattern.first != cmd[0],
    ensures
        eval_spec(rules, cmd) == EvaluationV::NoMatch,
{
    assert(forall|i: int|
        0 <= i < rules.len() ==> !pattern_matches(#[trigger] rules[i].pattern, cmd));
    lemma_no_rule_matches(rules, cmd);
}

/// Prefix semantics: a rule that matches a command also matches every
/// extension of it by further tokens, with the same matched prefix.
pub proof fn lemma_prefix_semantics(r: PrefixRuleV, cmd: Seq<Seq<char>>, extra: Seq<Seq<char>>)
    requires
        pattern_matches(r.pattern, cmd),
    ensures
        pattern_matches(r.pattern, cmd + extra),
        rule_match_of(r, cmd + extra) == rule_match_of(r, cmd),
{
    let longer = cmd + extra;
    assert(longer[0] == cmd[0]);
    assert forall|i: int| 0 <= i < r.pattern.rest.len() implies token_matches(
        r.pattern.rest[i],
        longer[i + 1],
    ) by {
        assert(longer[i + 1] == cmd[i + 1]);
    }
    assert(longer.take(pattern_len(r.pattern) as int) =~= cmd.take(pattern_len(r.pattern) as int));
}

/// The per-position matcher of a pattern: the first literal at position
/// zero, the tail tokens after it.
pub open spec fn position_token(p: PrefixPatternV, i: int) -> PatternTokenV {
    if i == 0 {
        PatternTokenV::Single(p.first)
    } else {
        p.rest[i - 1]
    }
}

/// Matching is byte-exact: replacing any matched position with a token its
/// per-position matcher does not accept falsifies the match.  At a literal
/// position every changed token is such a token, since a literal accepts
/// exactly one string.
pub proof fn lemma_literal_equality(r: PrefixRuleV, cmd: Seq<Seq<char>>, i: int, t: Seq<char>)
    requires
        pattern_matches(r.pattern, cmd),
        0 <= i < pattern_len(r.pattern),
        !token_matches(position_token(r.pattern, i), t),
    ensures
        !pattern_matches(r.pattern, cmd.update(i, t)),
{
    let changed = cmd.update(i, t);
    if i == 0 {
        assert(changed[0] == t);
        assert(t != r.pattern.first);
    } else {
        assert(changed[i] == t);
        assert(!token_matches(r.pattern.rest[i - 1], changed[i - 1 + 1]));
    }
}

/// A tail alternatives position is one stored matcher that accepts each of
/// its alternatives: swapping a matched tail position to any alternative of
/// that position keeps the rule matching.
pub proof fn lemma_tail_alternative(r: PrefixRuleV, cmd: Seq<Seq<char>>, i: int, a: Seq<char>)
    requires
        pattern_matches(r.pattern, cmd),
        0 <= i < r.pattern.rest.len(),
        r.pattern.rest[i] matches PatternTokenV::Alts(alts) && alts.contains(a),
    ensures
        pattern_matches(r.pattern, cmd.update(i + 1, a)),
{
    let changed = cmd.update(i + 1, a);
    assert(changed[0] == cmd[0]);
    assert forall|j: int| 0 <= j < r.pattern.rest.len() implies token_matches(
        r.pattern.rest[j],
        changed[j + 1],
    ) by {
        if j != i {
            assert(changed[j + 1] == cmd[j + 1]);
        } else {
            assert(token_matches(r.pattern.rest[i], a));
        }
    }
}

/// First-token fan-out: a call whose first position offers `n` alternatives
/// is stored as exactly `n` rules, one per alternative, sharing the id, the
/// tail pattern and the decision.
pub proof fn lemma_fan_out(
    heads: Seq<Seq<char>>,
    tail: Seq<PatternTokenV>,
    id: Seq<char>,
    decision: crate::decision::Decision,
)
    ensures
        crate::parser::fan_out(heads, tail, id, decision).len() == heads.len(),
        forall|i: int|
            0 <= i < heads.len() ==> #[trigger] crate::parser::fan_out(heads, tail, id, decision)[i]
                == (PrefixRuleV {
                id: id,
                pattern: PrefixPatternV { first: heads[i], rest: tail },
                decision,
            }),
{
}

/// Strictest-wins: when the verdict is a match, its decision is the `max`
/// of the matching rules' decisions under the strictness order: no piece of
/// evidence is stricter, and some piece of evidence carries it.
pub proof fn lemma_strictest_wins(rules: Seq<PrefixRuleV>, cmd: Seq<Seq<char>>)
    requires
        eval_spec(rules, cmd) is Match,
    ensures
        eval_spec(rules, cmd)->Match_decision == strictest_of(matched_evidence(rules, cmd)),
        forall|i: int|
            0 <= i < matched_evidence(rules, cmd).len() ==> strictness(
                #[trigger] matched_evidence(rules, cmd)[i].decision,
            ) <= strictness(eval_spec(rules, cmd)->Match_decision),
        exists|i: int|
            0 <= i < matched_evidence(rules, cmd).len() && #[trigger] matched_evidence(
                rules,
                cmd,
            )[i].decision == eval_spec(rules, cmd)->Match_decision,
{
    lemma_strictest_is_max(matched_evidence(rules, cmd));
}

/// Evidence order: a rule loaded later can only append evidence at the
/// end, whatever its decision; the reported matches therefore follow load
/// order.
pub proof fn lemma_evidence_order(rules: Seq<PrefixRuleV>, extra: PrefixRuleV, cmd: Seq<Seq<char>>)
    ensures
        matched_evidence(rules.push(extra), cmd) == if pattern_matches(extra.pattern, cmd) {
            matched_evidence(rules, cmd).push(rule_match_of(extra, cmd))
        } else {
            matched_evidence(rules, cmd)
        },
{
    reveal(Seq::filter);
    let pred = |r: PrefixRuleV| pattern_matches(r.pattern, cmd);
    assert(rules.push(extra).drop_last() =~= rules);
    if pred(extra) {
        assert(matching_rules(rules.push(extra), cmd) == matching_rules(rules, cmd).push(extra));
        assert(matched_evidence(rules.push(extra), cmd) =~= matched_evidence(rules, cmd).push(
            rule_match_of(extra, cmd),
        ));
    } else {
        assert(matching_rules(rules.push(extra), cmd) == matching_rules(rules, cmd));
        assert(matched_evidence(rules.push(extra), cmd) =~= matched_evidence(rules, cmd));
    }
}

/// Example enforcement, per rule: validation passes exactly when the rule
/// matches every positive example and no negative one.
pub proof fn lemma_example_enforcement(
    r: PrefixRuleV,
    pos: Seq<Seq<Seq<char>>>,
    neg: Seq<Seq<Seq<char>>>,
)
    ensures
        validate_spec(r, pos, neg) is None <==> ((forall|i: int|
            0 <= i < pos.len() ==> pattern_matches(r.pattern, #[trigger] pos[i])) && (forall|
            j: int,
        |
            0 <= j < neg.len() ==> !pattern_matches(r.pattern, #[trigger] neg[j]))),
    decreases pos.len(), neg.len(),
{
    if pos.len() > 0 {
        if pattern_matches(r.pattern, pos[0]) {
            lemma_example_enforcement(r, pos.drop_first(), neg);
            assert(forall|i: int|
                0 <= i < pos.len() - 1 ==> #[trigger] pos.drop_first()[i] == pos[i + 1]);
            if validate_spec(r, pos, neg) is None {
                assert forall|i: int| 0 <= i < pos.len() implies pattern_matches(
                    r.pattern,
                    #[trigger] pos[i],
                ) by {
                    if i > 0 {
                        assert(pos[i] == pos.drop_first()[i - 1]);
                    }
                }
            }
        } else {
            assert(!pattern_matches(r.pattern, pos[0]));
        }
    } else if neg.len() > 0 {
        if !pattern_matches(r.pattern, neg[0]) {
            lemma_example_enforcement(r, pos, neg.drop_first());
            assert(forall|j: int|
                0 <= j < neg.len() - 1 ==> #[trigger] neg.drop_first()[j] == neg[j + 1]);
            if validate_spec(r, pos, neg) is None {
                assert forall|j: int| 0 <= j < neg.len() implies !pattern_matches(
                    r.pattern,
                    #[trigger] neg[j],
                ) by {
                    if j > 0 {
                        assert(neg[j] == neg.drop_first()[j - 1]);
                    }
                }
            }
        } else {
            assert(pattern_matches(r.pattern, neg[0]));
        }
    }
}

/// Example enforcement, per call: a call's rules are registered exactly
/// when every fanned-out rule passes its example validation.
pub proof fn lemma_call_example_enforcement(
    rules: Seq<PrefixRuleV>,
    pos: Seq<Seq<Seq<char>>>,
    neg: Seq<Seq<Seq<char>>>,
)
    ensures
        crate::parser::spec_validate_rules(rules, pos, neg) is None <==> (forall|k: int|
            0 <= k < rules.len() ==> validate_spec(#[trigger] rules[k], pos, neg) is None),
    decreases rules.len(),
{
    if rules.len() > 0 {
        lemma_call_example_enforcement(rules.drop_first(), pos, neg);
        assert(forall|k: int|
            0 <= k < rules.len() - 1 ==> #[trigger] rules.drop_first()[k] == rules[k + 1]);
        if crate::parser::spec_validate_rules(rules, pos, neg) is None {
            assert forall|k: int| 0 <= k < rules.len() implies validate_spec(
                #[trigger] rules[k],
                pos,
                neg,
            ) is None by {
                if k > 0 {
                    assert(rules[k] == rules.drop_first()[k - 1]);
                }
            }
        }
    }
}

/// Example enforcement, at the loader: a call that names a valid decision
/// and a non-empty pattern registers its rules exactly when every
/// fanned-out rule passes its example validation, and what it registers is
/// the fan-out itself.
pub proof fn lemma_loader_example_enforcement(call: crate::parser::CallArgsV, auto_index: nat)
    requires
        call.pattern matches Some(elems) && elems.len() > 0,
        crate::parser::spec_decision_of(call) is Ok,
    ensures
        ({
            let elems = call.pattern->Some_0;
            let rules = crate::parser::fan_out(
                crate::rule::token_alternatives(elems[0]),
                elems.drop_first(),
                crate::parser::spec_rule_id(call, auto_index),
                crate::parser::spec_decision_of(call)->Ok_0,
            );
            let pos = crate::parser::spec_examples_of(call.pos_examples);
            let neg = crate::parser::spec_examples_of(call.neg_examples);
            &&& (crate::parser::spec_rules_of_call(call, auto_index) is Ok <==> (forall|k: int|
                0 <= k < rules.len() ==> validate_spec(#[trigger] rules[k], pos, neg) is None))
            &&& (crate::parser::spec_rules_of_call(call, auto_index) is Ok
                ==> crate::parser::spec_rules_of_call(call, auto_index)->Ok_0 == rules)
        }),
{
    let elems = call.pattern->Some_0;
    let rules = crate::parser::fan_out(
        crate::rule::token_alternatives(elems[0]),
        elems.drop_first(),
        crate::parser::spec_rule_id(call, auto_index),
        crate::parser::spec_decision_of(call)->Ok_0,
    );
    let pos = crate::parser::spec_examples_of(call.pos_examples);
    let neg = crate::parser::spec_examples_of(call.neg_examples);
    lemma_call_example_enforcement(rules, pos, neg);
}

/// Immutability: evaluation is a pure function of the policy's rules and
/// the command.  `Policy::check` pins its result to `eval_spec` of the two
/// models alone, so any two evaluations of equal models are equal.
pub proof fn lemma_evaluation_deterministic(
    rules: Seq<PrefixRuleV>,
    cmd: Seq<Seq<char>>,
    e1: EvaluationV,
    e2: EvaluationV,
)
    requires
        e1 == eval_spec(rules, cmd),
        e2 == eval_spec(rules, cmd),
    ensures
        e1 == e2,
{
}

} // verus!
