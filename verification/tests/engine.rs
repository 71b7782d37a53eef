use execpolicy::Decision;
use execpolicy::Evaluation;
use execpolicy::PolicyParser;
use execpolicy::Rule;
use execpolicy::RuleMatch;
use execpolicy::load_default_policy;

fn tokens(cmd: &[&str]) -> Vec<String> {
    cmd.iter().map(std::string::ToString::to_string).collect()
}

fn parse(src: &str) -> execpolicy::Policy {
    PolicyParser::new("test.policy", src).parse().expect("parse policy")
}

#[test]
fn empty_command_yields_no_match() {
    let policy = parse("prefix_rule(pattern = [\"git\"])\n");
    let eval = policy.check(&tokens(&[]));
    assert_eq!(eval, Evaluation::NoMatch);
    assert!(!eval.is_match());
}

#[test]
fn unindexed_first_token_yields_no_match() {
    let policy = parse("prefix_rule(pattern = [\"git\", \"status\"])\n");
    assert_eq!(policy.check(&tokens(&["npm", "status"])), Evaluation::NoMatch);
    assert_eq!(policy.check(&tokens(&["gi", "status"])), Evaluation::NoMatch);
}

#[test]
fn prefix_accepts_any_suffix() {
    let policy = parse("prefix_rule(pattern = [\"git\", \"status\"])\n");
    let short = policy.check(&tokens(&["git", "status"]));
    let long = policy.check(&tokens(&["git", "status", "--short", "--branch"]));
    match (&short, &long) {
        (
            Evaluation::Match { matched_rules: a, .. },
            Evaluation::Match { matched_rules: b, .. },
        ) => {
            assert_eq!(a, b);
            let RuleMatch::PrefixRuleMatch { matched_prefix, .. } = &a[0];
            assert_eq!(matched_prefix, &tokens(&["git", "status"]));
        },
        _ => panic!("expected matches"),
    }
}

#[test]
fn changed_byte_falsifies_match() {
    let policy = parse("prefix_rule(pattern = [\"git\", \"status\"])\n");
    assert!(policy.check(&tokens(&["git", "status"])).is_match());
    assert!(!policy.check(&tokens(&["git", "statuS"])).is_match());
    assert!(!policy.check(&tokens(&["giT", "status"])).is_match());
    assert!(!policy.check(&tokens(&["git", "statu"])).is_match());
}

#[test]
fn tail_alternatives_are_one_stored_rule() {
    let policy = parse("prefix_rule(pattern = [\"npm\", [\"i\", \"install\"]])\n");
    let rules = policy.rules_for("npm");
    assert_eq!(rules.len(), 1);
    assert!(policy.check(&tokens(&["npm", "i"])).is_match());
    assert!(policy.check(&tokens(&["npm", "install"])).is_match());
    assert!(!policy.check(&tokens(&["npm", "update"])).is_match());
}

#[test]
fn stored_tail_keeps_alternatives_unexpanded() {
    let policy = parse(
        "prefix_rule(pattern = [\"npm\", [\"i\", \"install\"], [\"--legacy-peer-deps\", \"--no-save\"]])\n",
    );
    let rules = policy.rules_for("npm");
    assert_eq!(rules.len(), 1);
    let Rule::Prefix(rule) = &rules[0];
    assert_eq!(rule.pattern.first, "npm");
    assert_eq!(rule.pattern.rest.len(), 2);
    for token in &rule.pattern.rest {
        match token {
            execpolicy::rule::PatternToken::Alts(alts) => assert_eq!(alts.len(), 2),
            execpolicy::rule::PatternToken::Single(_) => panic!("expected alternatives"),
        }
    }
}

#[test]
fn fan_out_shares_id_decision_and_tail() {
    let policy = parse(
        "prefix_rule(id = \"shell\", pattern = [[\"bash\", \"sh\"], [\"-c\", \"-l\"]], decision = \"prompt\")\n",
    );
    let bash = policy.rules_for("bash");
    let sh = policy.rules_for("sh");
    assert_eq!(bash.len(), 1);
    assert_eq!(sh.len(), 1);
    let Rule::Prefix(b) = &bash[0];
    let Rule::Prefix(s) = &sh[0];
    assert_eq!(b.id, "shell");
    assert_eq!(s.id, "shell");
    assert_eq!(b.decision, Decision::Prompt);
    assert_eq!(s.decision, Decision::Prompt);
    assert_eq!(b.pattern.rest, s.pattern.rest);
    assert_eq!(policy.rules().len(), 2);
}

#[test]
fn evidence_in_load_order_with_strictest_decision() {
    let policy = parse(
        "prefix_rule(id = \"allow_git_status\", pattern = [\"git\", \"status\"], decision = \"allow\")\nprefix_rule(id = \"prompt_git\", pattern = [\"git\"], decision = \"prompt\")\nprefix_rule(id = \"forbid_git_commit\", pattern = [\"git\", \"commit\"], decision = \"forbidden\")\n",
    );
    match policy.check(&tokens(&["git", "status"])) {
        Evaluation::Match { decision, matched_rules } => {
            assert_eq!(decision, Decision::Prompt);
            let ids: Vec<&str> = matched_rules
                .iter()
                .map(|m| {
                    let RuleMatch::PrefixRuleMatch { rule_id, .. } = m;
                    rule_id.as_str()
                })
                .collect();
            assert_eq!(ids, vec!["allow_git_status", "prompt_git"]);
        },
        Evaluation::NoMatch => panic!("expected a match"),
    }
    match policy.check(&tokens(&["git", "commit", "-m", "hi"])) {
        Evaluation::Match { decision, matched_rules } => {
            assert_eq!(decision, Decision::Forbidden);
            let ids: Vec<&str> = matched_rules
                .iter()
                .map(|m| {
                    let RuleMatch::PrefixRuleMatch { rule_id, .. } = m;
                    rule_id.as_str()
                })
                .collect();
            assert_eq!(ids, vec!["prompt_git", "forbid_git_commit"]);
        },
        Evaluation::NoMatch => panic!("expected a match"),
    }
}

#[test]
fn match_carries_id_prefix_and_decision() {
    let policy = parse("prefix_rule(id = \"git_status\", pattern = [\"git\", \"status\"])\n");
    match policy.check(&tokens(&["git", "status"])) {
        Evaluation::Match { decision, matched_rules } => {
            assert_eq!(decision, Decision::Allow);
            assert_eq!(matched_rules.len(), 1);
            let RuleMatch::PrefixRuleMatch { rule_id, matched_prefix, decision } =
                &matched_rules[0];
            assert_eq!(rule_id, "git_status");
            assert_eq!(matched_prefix, &tokens(&["git", "status"]));
            assert_eq!(*decision, Decision::Allow);
            assert_eq!(matched_rules[0].decision(), Decision::Allow);
        },
        Evaluation::NoMatch => panic!("expected a match"),
    }
}

#[test]
fn evaluation_is_repeatable() {
    let policy = parse(
        "prefix_rule(pattern = [\"git\", [\"status\", \"log\"]], decision = \"prompt\")\n",
    );
    let cmd = tokens(&["git", "log", "-n", "3"]);
    let first = policy.check(&cmd);
    let second = policy.check(&cmd);
    assert_eq!(first, second);
}

#[test]
fn default_policy_declares_no_rules() {
    let policy = load_default_policy().expect("default policy loads");
    assert_eq!(policy.rules().len(), 0);
    assert_eq!(policy.check(&tokens(&["ls", "-la"])), Evaluation::NoMatch);
}

#[test]
fn empty_string_tokens_are_accepted() {
    let policy = parse("prefix_rule(pattern = [\"git\", \"\"])\n");
    assert!(policy.check(&tokens(&["git", "", "x"])).is_match());
    assert!(!policy.check(&tokens(&["git", "y"])).is_match());
}

#[test]
fn single_alternative_canonicalizes_to_literal() {
    let policy = parse("prefix_rule(pattern = [\"git\", [\"status\"]])\n");
    let rules = policy.rules_for("git");
    assert_eq!(rules.len(), 1);
    let Rule::Prefix(rule) = &rules[0];
    match &rule.pattern.rest[0] {
        execpolicy::rule::PatternToken::Single(value) => assert_eq!(value, "status"),
        execpolicy::rule::PatternToken::Alts(_) => panic!("expected a canonicalized literal"),
    }
    assert_eq!(
        rule.description(),
        "prefix_rule(pattern = [git, status], decision = allow)"
    );
}
