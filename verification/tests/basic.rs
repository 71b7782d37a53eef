use execpolicy::PolicyParser;
use execpolicy::Rule;

fn tokens(cmd: &[&str]) -> Vec<String> {
    cmd.iter().map(std::string::ToString::to_string).collect()
}

fn rules_to_string(rules: &[Rule]) -> String {
    format!(
        "[{}]",
        rules.iter().map(|r| r.description()).collect::<Vec<_>>().join(", ")
    )
}

#[test]
fn basic_match() {
    let policy_src = r#"
prefix_rule(
    pattern = ["git", "status"],
)
    "#;
    let policy = PolicyParser::new("test.policy", policy_src)
        .parse()
        .expect("parse policy");
    let cmd = tokens(&["git", "status"]);
    let evaluation = policy.check(&cmd);
    assert_eq!(
        "Match {\n  decision: allow,\n  matched_rules: [\n    PrefixRuleMatch { matched_prefix: [\"git\", \"status\"], decision: allow },\n  ]\n}",
        evaluation.render()
    );
}

#[test]
fn only_first_token_alias_expands_to_multiple_rules() {
    let policy_src = r#"
prefix_rule(
    pattern = [["bash", "sh"], ["-c", "-l"]],
)
    "#;
    let parser = PolicyParser::new("test.policy", policy_src);
    let policy = parser.parse().expect("parse policy");

    let bash_rules = policy.rules_for("bash");
    let sh_rules = policy.rules_for("sh");
    assert_eq!(
        "[prefix_rule(pattern = [bash, [-c, -l]], decision = allow)]",
        rules_to_string(&bash_rules)
    );
    assert_eq!(
        "[prefix_rule(pattern = [sh, [-c, -l]], decision = allow)]",
        rules_to_string(&sh_rules)
    );

    let bash_eval = policy.check(&tokens(&["bash", "-c", "echo", "hi"]));
    assert_eq!(
        "Match {\n  decision: allow,\n  matched_rules: [\n    PrefixRuleMatch { matched_prefix: [\"bash\", \"-c\"], decision: allow },\n  ]\n}",
        bash_eval.render()
    );

    let sh_eval = policy.check(&tokens(&["sh", "-l", "echo", "hi"]));
    assert_eq!(
        "Match {\n  decision: allow,\n  matched_rules: [\n    PrefixRuleMatch { matched_prefix: [\"sh\", \"-l\"], decision: allow },\n  ]\n}",
        sh_eval.render()
    );
}

#[test]
fn tail_aliases_are_not_cartesian_expanded() {
    let policy_src = r#"
prefix_rule(
    pattern = ["npm", ["i", "install"], ["--legacy-peer-deps", "--no-save"]],
)
    "#;
    let parser = PolicyParser::new("test.policy", policy_src);
    let policy = parser.parse().expect("parse policy");

    let rules = policy.rules_for("npm");
    assert_eq!(
        "[prefix_rule(pattern = [npm, [i, install], [--legacy-peer-deps, --no-save]], decision = allow)]",
        rules_to_string(&rules)
    );

    let npm_i = policy.check(&tokens(&["npm", "i", "--legacy-peer-deps"]));
    assert_eq!(
        "Match {\n  decision: allow,\n  matched_rules: [\n    PrefixRuleMatch { matched_prefix: [\"npm\", \"i\", \"--legacy-peer-deps\"], decision: allow },\n  ]\n}",
        npm_i.render()
    );

    let npm_install = policy.check(&tokens(&["npm", "install", "--no-save", "leftpad"]));
    assert_eq!(
        "Match {\n  decision: allow,\n  matched_rules: [\n    PrefixRuleMatch { matched_prefix: [\"npm\", \"install\", \"--no-save\"], decision: allow },\n  ]\n}",
        npm_install.render()
    );
}

#[test]
fn match_and_not_match_examples_are_enforced() {
    let policy_src = r#"
prefix_rule(
    pattern = ["git", "status"],
    match = [["git", "status"]],
    not_match = [["git", "reset", "--hard"]],
)
    "#;
    let parser = PolicyParser::new("test.policy", policy_src);
    let policy = parser.parse().expect("parse policy");
    let match_eval = policy.check(&tokens(&["git", "status"]));
    assert_eq!(
        "Match {\n  decision: allow,\n  matched_rules: [\n    PrefixRuleMatch { matched_prefix: [\"git\", \"status\"], decision: allow },\n  ]\n}",
        match_eval.render()
    );

    let no_match_eval = policy.check(&tokens(&["git", "reset", "--hard"]));
    assert_eq!("NoMatch", no_match_eval.render());
}

#[test]
fn strictest_decision_wins_across_matches() {
    let policy_src = r#"
prefix_rule(
    pattern = ["git", "status"],
    decision = "allow",
)
prefix_rule(
    pattern = ["git"],
    decision = "prompt",
)
prefix_rule(
    pattern = ["git", "commit"],
    decision = "forbidden",
)
    "#;
    let parser = PolicyParser::new("test.policy", policy_src);
    let policy = parser.parse().expect("parse policy");

    let status = policy.check(&tokens(&["git", "status"]));
    assert_eq!(
        "Match {\n  decision: prompt,\n  matched_rules: [\n    PrefixRuleMatch { matched_prefix: [\"git\", \"status\"], decision: allow },\n    PrefixRuleMatch { matched_prefix: [\"git\"], decision: prompt },\n  ]\n}",
        status.render()
    );

    let commit = policy.check(&tokens(&["git", "commit", "-m", "hi"]));
    assert_eq!(
        "Match {\n  decision: forbidden,\n  matched_rules: [\n    PrefixRuleMatch { matched_prefix: [\"git\"], decision: prompt },\n    PrefixRuleMatch { matched_prefix: [\"git\", \"commit\"], decision: forbidden },\n  ]\n}",
        commit.render()
    );
}
