//! The policy and its evaluator: an immutable rule set indexed by first
//! token, evaluated by folding every matching rule's decision under the
//! strictness order.

use vstd::prelude::*;

use crate::decision::Decision;
use crate::decision::stricter_spec;
use crate::decision::strictness;
use crate::index::index_buckets;
use crate::index::index_get;
use crate::index::index_insert;
use crate::index::index_new;
use crate::rule::PrefixRuleV;
use crate::rule::Rule;
use crate::rule::RuleMatch;
use crate::rule::RuleMatchV;
use crate::rule::pattern_matches;
use crate::rule::rule_match_of;

verus! {

/// The verdict of evaluating a command against a policy: either no rule
/// took a position, or the strictest decision of all matching rules,
/// together with every match as evidence, in load order.
#[derive(Clone, Debug, Eq, PartialEq)]
pub enum Evaluation {
    NoMatch,
    Match { decision: Decision, matched_rules: Vec<RuleMatch> },
}

/// The mathematical model of an `Evaluation`.
pub enum EvaluationV {
    NoMatch,
    Match { decision: Decision, matched_rules: Seq<RuleMatchV> },
}

impl View for Evaluation {
    type V = EvaluationV;

    open spec fn view(&self) -> EvaluationV {
        match self {
            Evaluation::NoMatch => EvaluationV::NoMatch,
            Evaluation::Match { decision, matched_rules } => EvaluationV::Match {
                decision: *decision,
                matched_rules: matched_rules.deep_view(),
            },
        }
    }
}

impl Evaluation {
    /// Whether any rule matched.
    pub fn is_match(&self) -> (r: bool)
        ensures
            r == (self@ is Match),
    {
        match self {
            Evaluation::Match { .. } => true,
            Evaluation::NoMatch => false,
        }
    }
}

/// The rules of a sequence that match a command, in order.
pub open spec fn matching_rules(rules: Seq<PrefixRuleV>, cmd: Seq<Seq<char>>) -> Seq<
    PrefixRuleV,
> {
    rules.filter(|r: PrefixRuleV| pattern_matches(r.pattern, cmd))
}

/// The evidence evaluation reports: one entry per matching rule, in load
/// order.
pub open spec fn matched_evidence(rules: Seq<PrefixRuleV>, cmd: Seq<Seq<char>>) -> Seq<
    RuleMatchV,
> {
    matching_rules(rules, cmd).map_values(|r: PrefixRuleV| rule_match_of(r, cmd))
}

/// The strictest decision among the evidence entries: the `max` under the
/// strictness order.
pub open spec fn strictest_of(ms: Seq<RuleMatchV>) -> Decision
    recommends
        ms.len() > 0,
    decreases ms.len(),
{
    if ms.len() <= 1 {
        ms[0].decision
    } else {
        stricter_spec(strictest_of(ms.drop_last()), ms.last().decision)
    }
}

/// What evaluating a command against a rule sequence yields.
pub open spec fn eval_spec(rules: Seq<PrefixRuleV>, cmd: Seq<Seq<char>>) -> EvaluationV {
    let ms = matched_evidence(rules, cmd);
    if ms.len() == 0 {
        EvaluationV::NoMatch
    } else {
        EvaluationV::Match { decision: strictest_of(ms), matched_rules: ms }
    }
}

/// The load-order positions of the rules whose first pattern token is `key`.
pub open spec fn positions(rules: Seq<PrefixRuleV>, key: Seq<char>) -> Seq<usize>
    decreases rules.len(),
{
    if rules.len() == 0 {
        Seq::empty()
    } else {
        let init = positions(rules.drop_last(), key);
        if rules.last().pattern.first == key {
            init.push((rules.len() - 1) as usize)
        } else {
            init
        }
    }
}

/// Every position is a valid index into the rules.
pub proof fn lemma_positions_bounds(rules: Seq<PrefixRuleV>, key: Seq<char>)
    requires
        rules.len() <= usize::MAX,
    ensures
        forall|j: int|
            0 <= j < positions(rules, key).len() ==> #[trigger] positions(rules, key)[j]
                < rules.len(),
    decreases rules.len(),
{
    if rules.len() > 0 {
        lemma_positions_bounds(rules.drop_last(), key);
        let init = positions(rules.drop_last(), key);
        let ps = positions(rules, key);
        assert forall|j: int| 0 <= j < ps.len() implies #[trigger] ps[j] < rules.len() by {
            if rules.last().pattern.first == key {
                assert(ps == init.push((rules.len() - 1) as usize));
                if j < init.len() {
                    assert(ps[j] == init[j]);
                }
            } else {
                assert(ps == init);
            }
        }
    }
}

/// If no position carries the key, no rule's first token equals it.
pub proof fn lemma_positions_empty(rules: Seq<PrefixRuleV>, key: Seq<char>)
    requires
        positions(rules, key).len() == 0,
    ensures
        forall|i: int| 0 <= i < rules.len() ==> #[trigger] rules[i].pattern.first != key,
    decreases rules.len(),
{
    if rules.len() > 0 {
        assert(positions(rules.drop_last(), key).len() == 0);
        lemma_positions_empty(rules.drop_last(), key);
        assert(rules.last().pattern.first != key);
        assert forall|i: int| 0 <= i < rules.len() implies #[trigger] rules[i].pattern.first
            != key by {
            if i < rules.len() - 1 {
                assert(rules.drop_last()[i] == rules[i]);
            }
        }
    }
}

/// If no rule matches a command, the evidence is empty.
pub proof fn lemma_no_rule_matches(rules: Seq<PrefixRuleV>, cmd: Seq<Seq<char>>)
    requires
        forall|i: int| 0 <= i < rules.len() ==> !pattern_matches(#[trigger] rules[i].pattern, cmd),
    ensures
        matched_evidence(rules, cmd) == Seq::<RuleMatchV>::empty(),
    decreases rules.len(),
{
    reveal(Seq::filter);
    if rules.len() > 0 {
        assert(forall|i: int|
            0 <= i < rules.len() - 1 ==> #[trigger] rules.drop_last()[i] == rules[i]);
        lemma_no_rule_matches(rules.drop_last(), cmd);
        assert(!pattern_matches(rules.last().pattern, cmd));
        assert(matching_rules(rules, cmd) == matching_rules(rules.drop_last(), cmd));
    }
    assert(matched_evidence(rules, cmd) =~= Seq::<RuleMatchV>::empty());
}

/// The evidence gathered by walking a position list: for each in-bounds
/// position whose rule matches, that rule's evidence, in list order.
pub open spec fn matched_via(
    rules: Seq<PrefixRuleV>,
    bucket: Seq<usize>,
    cmd: Seq<Seq<char>>,
) -> Seq<RuleMatchV>
    decreases bucket.len(),
{
    if bucket.len() == 0 {
        Seq::empty()
    } else {
        let init = matched_via(rules, bucket.drop_last(), cmd);
        let p = bucket.last() as int;
        if 0 <= p < rules.len() && pattern_matches(rules[p].pattern, cmd) {
            init.push(rule_match_of(rules[p], cmd))
        } else {
            init
        }
    }
}

/// Appending a rule does not change the evidence gathered by a position
/// list that only reaches the rules already present.
pub proof fn lemma_matched_via_extend(
    rules: Seq<PrefixRuleV>,
    extra: PrefixRuleV,
    bucket: Seq<usize>,
    cmd: Seq<Seq<char>>,
)
    requires
        forall|j: int| 0 <= j < bucket.len() ==> #[trigger] bucket[j] < rules.len(),
    ensures
        matched_via(rules.push(extra), bucket, cmd) == matched_via(rules, bucket, cmd),
    decreases bucket.len(),
{
    if bucket.len() > 0 {
        assert(forall|j: int|
            0 <= j < bucket.len() - 1 ==> #[trigger] bucket.drop_last()[j] == bucket[j]);
        lemma_matched_via_extend(rules, extra, bucket.drop_last(), cmd);
        assert(rules.push(extra)[bucket.last() as int] == rules[bucket.last() as int]);
    }
}

/// Walking the positions of a command's first token gathers exactly the
/// evidence of every matching rule, in load order.
pub proof fn lemma_matched_via_positions(rules: Seq<PrefixRuleV>, cmd: Seq<Seq<char>>)
    requires
        cmd.len() > 0,
        rules.len() <= usize::MAX,
    ensures
        matched_via(rules, positions(rules, cmd[0]), cmd) == matched_evidence(rules, cmd),
    decreases rules.len(),
{
    reveal(Seq::filter);
    if rules.len() == 0 {
        assert(matched_evidence(rules, cmd) =~= Seq::<RuleMatchV>::empty());
    } else {
        let init = rules.drop_last();
        let last = rules.last();
        let key = cmd[0];
        lemma_matched_via_positions(init, cmd);
        lemma_positions_bounds(init, key);
        lemma_matched_via_extend(init, last, positions(init, key), cmd);
        assert(init.push(last) =~= rules);
        // The evidence over `rules` extends the evidence over `init` by the
        // last rule's entry exactly when it matches.
        let pred = |r: PrefixRuleV| pattern_matches(r.pattern, cmd);
        let to_match = |r: PrefixRuleV| rule_match_of(r, cmd);
        if pred(last) {
            assert(matching_rules(rules, cmd) == matching_rules(init, cmd).push(last));
            assert(matched_evidence(rules, cmd) =~= matched_evidence(init, cmd).push(
                rule_match_of(last, cmd),
            ));
        } else {
            assert(matching_rules(rules, cmd) == matching_rules(init, cmd));
            assert(matched_evidence(rules, cmd) =~= matched_evidence(init, cmd));
        }
        // A non-matching or missing key leaves the walked evidence unchanged;
        // a matching key appends the same entry on both sides.
        if last.pattern.first == key {
            assert(positions(rules, key) == positions(init, key).push((rules.len() - 1) as usize));
            assert(positions(rules, key).drop_last() =~= positions(init, key));
        } else {
            assert(positions(rules, key) == positions(init, key));
            assert(!pattern_matches(last.pattern, cmd));
        }
    }
}

/// An immutable set of rules, indexed by each rule's first pattern token.
/// Its model is the rule sequence in load order.
pub struct Policy {
    rules: Vec<Rule>,
    by_program: crate::index::ProgramIndex,
}

impl View for Policy {
    type V = Seq<PrefixRuleV>;

    closed spec fn view(&self) -> Seq<PrefixRuleV> {
        self.rules.deep_view()
    }
}

impl Policy {
    /// The index lists exactly the positions of each first token's rules.
    #[verifier::type_invariant]
    spec fn wf(&self) -> bool {
        &&& forall|k: Seq<char>|
            #[trigger] index_buckets(self.by_program).contains_key(k) ==> index_buckets(
                self.by_program,
            )[k] == positions(self@, k)
        &&& forall|k: Seq<char>|
            positions(self@, k).len() > 0 ==> #[trigger] index_buckets(
                self.by_program,
            ).contains_key(k)
    }

    /// Build a policy from rules in load order, indexing them by first
    /// token.
    pub fn new(rules: Vec<Rule>) -> (r: Policy)
        ensures
            r@ == rules.deep_view(),
    {
        let mut by_program = index_new();
        let n = rules.len();
        let ghost all = rules.deep_view();
        let mut i: usize = 0;
        while i < n
            invariant
                n == rules.len(),
                i <= n,
                all == rules.deep_view(),
                all.len() == n,
                forall|k: Seq<char>|
                    #[trigger] index_buckets(by_program).contains_key(k) ==> index_buckets(
                        by_program,
                    )[k] == positions(all.take(i as int), k),
                forall|k: Seq<char>|
                    positions(all.take(i as int), k).len() > 0 ==> #[trigger] index_buckets(
                        by_program,
                    ).contains_key(k),
            decreases n - i,
        {
            let ghost pre = index_buckets(by_program);
            let ghost seen = all.take(i as int);
            let key = String::from_str(rules[i].program());
            index_insert(&mut by_program, key, i);
            i += 1;
            proof {
                let now = all.take(i as int);
                assert(now.drop_last() =~= seen);
                assert(now.last() == all[i - 1]);
                assert forall|k: Seq<char>| #[trigger]
                    index_buckets(by_program).contains_key(k) implies index_buckets(by_program)[k]
                    == positions(now, k) by {
                    if k == all[i - 1].pattern.first {
                        if pre.contains_key(k) {
                            assert(index_buckets(by_program)[k] == pre[k].push((i - 1) as usize));
                        } else {
                            assert(positions(seen, k).len() == 0);
                            assert(positions(seen, k) =~= Seq::<usize>::empty());
                            assert(index_buckets(by_program)[k] =~= positions(seen, k).push(
                                (i - 1) as usize,
                            ));
                        }
                    } else {
                        assert(positions(now, k) == positions(seen, k));
                        assert(index_buckets(by_program)[k] == pre[k]);
                    }
                }
                assert forall|k: Seq<char>| positions(now, k).len() > 0 implies #[trigger]
                    index_buckets(by_program).contains_key(k) by {
                    if k != all[i - 1].pattern.first {
                        assert(positions(now, k) == positions(seen, k));
                    }
                }
            }
        }
        proof {
            assert(all.take(n as int) =~= all);
        }
        let policy = Policy { rules, by_program };
        proof {
            assert(policy.wf());
        }
        policy
    }

    /// The rules of the policy, in load order.
    pub fn rules(&self) -> (r: &Vec<Rule>)
        ensures
            r.deep_view() == self@,
    {
        &self.rules
    }

    /// The rules whose first pattern token equals `program`, in load order.
    pub fn rules_for(&self, program: &str) -> (r: Vec<Rule>)
        ensures
            r.deep_view() == self@.filter(
                |rv: PrefixRuleV| rv.pattern.first == program@,
            ),
    {
        let mut out: Vec<Rule> = Vec::new();
        let n = self.rules.len();
        let mut i: usize = 0;
        proof {
            reveal(Seq::filter);
            assert(self@.take(0) =~= Seq::<PrefixRuleV>::empty());
        }
        while i < n
            invariant
                n == self.rules.len(),
                i <= n,
                out.deep_view() == self@.take(i as int).filter(
                    |rv: PrefixRuleV| rv.pattern.first == program@,
                ),
            decreases n - i,
        {
            let ghost pre = out.deep_view();
            if crate::strutil::str_eq(self.rules[i].program(), program) {
                out.push(self.rules[i].clone());
            }
            i += 1;
            proof {
                reveal(Seq::filter);
                let taken = self@.take(i as int);
                assert(taken.drop_last() =~= self@.take(i - 1 as int));
                assert(taken.last() == self@[i - 1]);
                if self@[i - 1].pattern.first == program@ {
                    assert(out.deep_view() =~= pre.push(self@[i - 1]));
                }
            }
        }
        proof {
            assert(self@.take(n as int) =~= self@);
        }
        out
    }

    /// Evaluate a command.  Total: every command yields either `NoMatch` or
    /// the strictest decision of all matching rules, with every match
    /// reported in load order.
    pub fn check(&self, cmd: &[String]) -> (r: Evaluation)
        ensures
            r@ == eval_spec(self@, cmd.deep_view()),
    {
        proof {
            use_type_invariant(&*self);
        }
        let ghost cmdv = cmd.deep_view();
        if cmd.is_empty() {
            proof {
                assert(forall|i: int|
                    0 <= i < self@.len() ==> !pattern_matches(#[trigger] self@[i].pattern, cmdv));
                lemma_no_rule_matches(self@, cmdv);
            }
            return Evaluation::NoMatch;
        }
        proof {
            assert(cmd[0].deep_view() == cmdv[0]);
        }
        let bucket = match index_get(&self.by_program, cmd[0].as_str()) {
            Some(bucket) => bucket,
            None => {
                proof {
                    if positions(self@, cmdv[0]).len() > 0 {
                        assert(index_buckets(self.by_program).contains_key(cmdv[0]));
                    }
                    lemma_positions_empty(self@, cmdv[0]);
                    assert(forall|i: int|
                        0 <= i < self@.len() ==> !pattern_matches(
                            #[trigger] self@[i].pattern,
                            cmdv,
                        ));
                    lemma_no_rule_matches(self@, cmdv);
                }
                return Evaluation::NoMatch;
            },
        };
        let n_rules = self.rules.len();
        proof {
            assert(self@.len() == n_rules <= usize::MAX);
            assert(bucket@ == positions(self@, cmdv[0]));
            lemma_positions_bounds(self@, cmdv[0]);
        }
        let mut matched_rules: Vec<RuleMatch> = Vec::new();
        let mut strictest: Option<Decision> = None;
        let m = bucket.len();
        let mut t: usize = 0;
        while t < m
            invariant
                m == bucket.len(),
                t <= m,
                bucket@ == positions(self@, cmdv[0]),
                forall|j: int| 0 <= j < bucket@.len() ==> #[trigger] bucket@[j] < self@.len(),
                self@.len() == self.rules.len(),
                cmdv == cmd.deep_view(),
                matched_rules.deep_view() == matched_via(self@, bucket@.take(t as int), cmdv),
                match strictest {
                    Some(d) => matched_rules.deep_view().len() > 0 && d == strictest_of(
                        matched_rules.deep_view(),
                    ),
                    None => matched_rules.deep_view().len() == 0,
                },
            decreases m - t,
        {
            let ghost pre = matched_rules.deep_view();
            let p = bucket[t];
            let matched = self.rules[p].matches(cmd);
            proof {
                assert(bucket@.take(t + 1 as int).drop_last() =~= bucket@.take(t as int));
                assert(bucket@.take(t + 1 as int).last() == bucket@[t as int]);
            }
            match matched {
                Some(evidence) => {
                    proof {
                        assert(evidence@ == rule_match_of(self@[p as int], cmdv));
                    }
                    let d = evidence.decision();
                    matched_rules.push(evidence);
                    proof {
                        assert(matched_rules.deep_view() =~= pre.push(
                            rule_match_of(self@[p as int], cmdv),
                        ));
                        assert(matched_rules.deep_view().drop_last() =~= pre);
                    }
                    strictest = match strictest {
                        Some(current) => Some(current.stricter(d)),
                        None => Some(d),
                    };
                },
                None => {
                    proof {
                        assert(matched_rules.deep_view() == matched_via(
                            self@,
                            bucket@.take(t + 1 as int),
                            cmdv,
                        ));
                    }
                },
            }
            t += 1;
        }
        proof {
            assert(bucket@.take(m as int) =~= bucket@);
            lemma_matched_via_positions(self@, cmdv);
        }
        match strictest {
            Some(decision) => Evaluation::Match { decision, matched_rules },
            None => Evaluation::NoMatch,
        }
    }
}

/// A strictness fact needed by callers combining decisions: the strictest
/// decision of a non-empty evidence list is one of its decisions, and no
/// entry is stricter.
pub proof fn lemma_strictest_is_max(ms: Seq<RuleMatchV>)
    requires
        ms.len() > 0,
    ensures
        exists|i: int| 0 <= i < ms.len() && #[trigger] ms[i].decision == strictest_of(ms),
        forall|i: int|
            0 <= i < ms.len() ==> strictness(#[trigger] ms[i].decision) <= strictness(
                strictest_of(ms),
            ),
    decreases ms.len(),
{
    if ms.len() == 1 {
        assert(ms[0].decision == strictest_of(ms));
    } else {
        lemma_strictest_is_max(ms.drop_last());
        assert(forall|i: int| 0 <= i < ms.len() - 1 ==> #[trigger] ms.drop_last()[i] == ms[i]);
        let s = strictest_of(ms);
        let prev = strictest_of(ms.drop_last());
        assert(s == stricter_spec(prev, ms.last().decision));
        assert(strictness(s) >= strictness(prev));
        assert(strictness(s) >= strictness(ms.last().decision));
        if strictness(ms.last().decision) > strictness(prev) {
            assert(ms[ms.len() - 1].decision == s);
        } else {
            let i = choose|i: int|
                0 <= i < ms.drop_last().len() && #[trigger] ms.drop_last()[i].decision == prev;
            assert(ms[i].decision == s);
        }
        assert forall|i: int| 0 <= i < ms.len() implies strictness(#[trigger] ms[i].decision)
            <= strictness(s) by {
            if i < ms.len() - 1 {
                assert(ms.drop_last()[i] == ms[i]);
            }
        }
    }
}

/// The lines of the evidence list in a rendered verdict, one per match.
pub open spec fn rendered_matches(ms: Seq<RuleMatchV>) -> Seq<char>
    decreases ms.len(),
{
    if ms.len() == 0 {
        Seq::empty()
    } else {
        rendered_matches(ms.drop_last()) + "    "@ + crate::rule::rendered_match(ms.last())
            + ",\n"@
    }
}

/// What `Evaluation::render` returns.
pub open spec fn rendered_evaluation(e: EvaluationV) -> Seq<char> {
    match e {
        EvaluationV::NoMatch => "NoMatch"@,
        EvaluationV::Match { decision, matched_rules } => "Match {\n  decision: "@
            + crate::decision::decision_str(decision) + ",\n  matched_rules: [\n"@
            + rendered_matches(matched_rules) + "  ]\n}"@,
    }
}

impl Evaluation {
    /// A human-readable, multi-line rendering of the verdict.
    pub fn render(&self) -> (r: String)
        ensures
            r@ == rendered_evaluation(self@),
    {
        match self {
            Evaluation::NoMatch => String::from_str("NoMatch"),
            Evaluation::Match { decision, matched_rules } => {
                let ghost msv = matched_rules.deep_view();
                let mut acc = String::from_str("Match {\n  decision: ").concat(
                    crate::decision::render_decision(*decision),
                ).concat(",\n  matched_rules: [\n");
                let ghost head = acc@;
                let n = matched_rules.len();
                let mut i: usize = 0;
                while i < n
                    invariant
                        n == matched_rules.len(),
                        msv == matched_rules.deep_view(),
                        msv.len() == n,
                        i <= n,
                        acc@ == head + rendered_matches(msv.take(i as int)),
                    decreases n - i,
                {
                    let line = matched_rules[i].render();
                    acc.append("    ");
                    acc.append(line.as_str());
                    acc.append(",\n");
                    i += 1;
                    proof {
                        assert(msv.take(i as int).drop_last() =~= msv.take(i - 1 as int));
                        assert(msv.take(i as int).last() == msv[i - 1]);
                        assert(acc@ =~= head + rendered_matches(msv.take(i as int)));
                    }
                }
                proof {
                    assert(msv.take(n as int) =~= msv);
                }
                acc.concat("  ]\n}")
            },
        }
    }
}

} // verus!
