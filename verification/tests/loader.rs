use execpolicy::Error;
use execpolicy::PolicyParser;

fn load_err(src: &str) -> Error {
    PolicyParser::new("test.policy", src)
        .parse()
        .err()
        .expect("expected a load error")
}

fn tokens(cmd: &[&str]) -> Vec<String> {
    cmd.iter().map(std::string::ToString::to_string).collect()
}

#[test]
fn invalid_decision_is_reported_with_raw_input() {
    let err = load_err("prefix_rule(pattern = [\"git\"], decision = \"Maybe\")\n");
    match err {
        Error::InvalidDecision(raw) => assert_eq!(raw, "Maybe"),
        other => panic!("unexpected error: {other:?}"),
    }
}

#[test]
fn empty_pattern_is_rejected() {
    let err = load_err("prefix_rule(pattern = [])\n");
    match err {
        Error::InvalidPattern(reason) => assert_eq!(reason, "pattern cannot be empty"),
        other => panic!("unexpected error: {other:?}"),
    }
}

#[test]
fn empty_alternatives_are_rejected() {
    let err = load_err("prefix_rule(pattern = [[]])\n");
    match err {
        Error::InvalidPattern(reason) => {
            assert_eq!(reason, "pattern alternatives cannot be empty")
        },
        other => panic!("unexpected error: {other:?}"),
    }
}

#[test]
fn nested_list_in_alternatives_is_rejected() {
    let err = load_err("prefix_rule(pattern = [[\"a\", [\"b\"]]])\n");
    match err {
        Error::InvalidPattern(reason) => {
            assert_eq!(reason, "pattern alternative must be a string")
        },
        other => panic!("unexpected error: {other:?}"),
    }
}

#[test]
fn example_that_is_not_a_list_is_rejected() {
    let err = load_err("prefix_rule(pattern = [\"git\"], match = [\"git\"])\n");
    match err {
        Error::InvalidExample(reason) => {
            assert_eq!(reason, "example must be a list of strings")
        },
        other => panic!("unexpected error: {other:?}"),
    }
}

#[test]
fn empty_example_is_rejected() {
    let err = load_err("prefix_rule(pattern = [\"git\"], not_match = [[]])\n");
    match err {
        Error::InvalidExample(reason) => assert_eq!(reason, "example cannot be an empty list"),
        other => panic!("unexpected error: {other:?}"),
    }
}

#[test]
fn example_token_that_is_not_a_string_is_rejected() {
    let err = load_err("prefix_rule(pattern = [\"git\"], match = [[[\"git\"]]])\n");
    match err {
        Error::InvalidExample(reason) => assert_eq!(reason, "example tokens must be strings"),
        other => panic!("unexpected error: {other:?}"),
    }
}

#[test]
fn unknown_function_is_rejected() {
    let err = load_err("suffix_rule(pattern = [\"git\"])\n");
    assert!(matches!(err, Error::ConfigLanguage(_)));
}

#[test]
fn unknown_argument_is_rejected() {
    let err = load_err("prefix_rule(pattern = [\"git\"], priority = \"high\")\n");
    assert!(matches!(err, Error::ConfigLanguage(_)));
}

#[test]
fn missing_pattern_is_rejected() {
    let err = load_err("prefix_rule(decision = \"allow\")\n");
    assert!(matches!(err, Error::ConfigLanguage(_)));
}

#[test]
fn pattern_that_is_not_a_list_is_rejected() {
    let err = load_err("prefix_rule(pattern = \"git\")\n");
    assert!(matches!(err, Error::ConfigLanguage(_)));
}

#[test]
fn repeated_argument_is_rejected() {
    let err = load_err("prefix_rule(pattern = [\"git\"], pattern = [\"npm\"])\n");
    assert!(matches!(err, Error::ConfigLanguage(_)));
}

#[test]
fn syntax_errors_are_rejected() {
    assert!(matches!(load_err("prefix_rule("), Error::ConfigLanguage(_)));
    assert!(matches!(load_err("prefix_rule(pattern = [\"git\")\n"), Error::ConfigLanguage(_)));
    assert!(matches!(load_err("prefix_rule pattern\n"), Error::ConfigLanguage(_)));
    assert!(matches!(load_err("prefix_rule(pattern = [\"git)\n"), Error::ConfigLanguage(_)));
    assert!(matches!(load_err("@prefix_rule(pattern = [\"git\"])\n"), Error::ConfigLanguage(_)));
}

#[test]
fn failing_positive_example_aborts_the_load() {
    let err = load_err(
        "prefix_rule(id = \"git_status\", pattern = [\"git\", \"status\"], match = [[\"npm\"]])\n",
    );
    match err {
        Error::ExampleDidNotMatch { rule_id, example } => {
            assert_eq!(rule_id, "git_status");
            assert_eq!(example, "npm");
        },
        other => panic!("unexpected error: {other:?}"),
    }
}

#[test]
fn matching_negative_example_aborts_the_load() {
    let good = "prefix_rule(id = \"git_status\", pattern = [\"git\", \"status\"], match = [[\"git\", \"status\"]], not_match = [[\"git\", \"reset\", \"--hard\"]])\n";
    assert!(PolicyParser::new("test.policy", good).parse().is_ok());

    let bad = "prefix_rule(id = \"git_status\", pattern = [\"git\", \"status\"], not_match = [[\"git\", \"status\"]])\n";
    match load_err(bad) {
        Error::ExampleDidMatch { rule_id, example } => {
            assert_eq!(rule_id, "git_status");
            assert_eq!(example, "git status");
        },
        other => panic!("unexpected error: {other:?}"),
    }
}

#[test]
fn example_rendering_is_shell_safe() {
    let err = load_err(
        "prefix_rule(id = \"git\", pattern = [\"git\"], not_match = [[\"git\", \"a b\"]])\n",
    );
    match err {
        Error::ExampleDidMatch { rule_id, example } => {
            assert_eq!(rule_id, "git");
            assert_eq!(example, "git 'a b'");
        },
        other => panic!("unexpected error: {other:?}"),
    }
}

#[test]
fn positive_examples_are_checked_before_negative_ones() {
    let err = load_err(
        "prefix_rule(id = \"r\", pattern = [\"git\"], match = [[\"npm\"]], not_match = [[\"git\"]])\n",
    );
    assert!(matches!(err, Error::ExampleDidNotMatch { .. }));
}

#[test]
fn fan_out_validates_each_alternative() {
    let err = load_err("prefix_rule(pattern = [[\"a\", \"b\"]], match = [[\"b\"]])\n");
    match err {
        Error::ExampleDidNotMatch { rule_id, example } => {
            assert_eq!(rule_id, "rule_0");
            assert_eq!(example, "b");
        },
        other => panic!("unexpected error: {other:?}"),
    }
}

#[test]
fn auto_ids_count_calls_from_zero() {
    let policy = PolicyParser::new(
        "test.policy",
        "prefix_rule(pattern = [\"echo\"])\nprefix_rule(id = \"named\", pattern = [\"ls\"])\nprefix_rule(pattern = [\"cat\"])\n",
    )
        .parse()
        .expect("parse policy");
    let ids: Vec<String> = policy
        .rules()
        .iter()
        .map(|r| {
            let execpolicy::Rule::Prefix(pr) = r;
            pr.id.clone()
        })
        .collect();
    assert_eq!(ids, vec!["rule_0", "named", "rule_2"]);

    match policy.check(&tokens(&["echo", "hi"])) {
        execpolicy::Evaluation::Match { matched_rules, .. } => {
            let execpolicy::RuleMatch::PrefixRuleMatch { rule_id, .. } = &matched_rules[0];
            assert_eq!(rule_id, "rule_0");
        },
        execpolicy::Evaluation::NoMatch => panic!("expected a match"),
    }
}

#[test]
fn auto_ids_render_multi_digit_counters() {
    let mut src = String::new();
    for _ in 0..11 {
        src.push_str("prefix_rule(pattern = [\"echo\"])\n");
    }
    let policy = PolicyParser::new("test.policy", &src).parse().expect("parse policy");
    let rules = policy.rules();
    assert_eq!(rules.len(), 11);
    let execpolicy::Rule::Prefix(last) = &rules[10];
    assert_eq!(last.id, "rule_10");
}

#[test]
fn comments_and_trailing_commas_are_accepted() {
    let src = "# leading comment\nprefix_rule(\n    pattern = [\"git\", \"status\",],  # trailing comma\n    decision = \"allow\",\n)\n# closing comment";
    let policy = PolicyParser::new("test.policy", src).parse().expect("parse policy");
    assert!(policy.check(&tokens(&["git", "status"])).is_match());
}

#[test]
fn string_escapes_are_decoded() {
    let src = "prefix_rule(pattern = [\"echo\", \"a\\\"b\\\\c\"])\n";
    let policy = PolicyParser::new("test.policy", src).parse().expect("parse policy");
    assert!(policy.check(&tokens(&["echo", "a\"b\\c"])).is_match());
    assert!(!policy.check(&tokens(&["echo", "ab"])).is_match());
}

#[test]
fn error_messages_name_the_failure() {
    let err = load_err("prefix_rule(pattern = [\"git\"], decision = \"Maybe\")\n");
    assert_eq!(err.message(), "invalid decision: Maybe");
    let err = load_err("prefix_rule(pattern = [])\n");
    assert_eq!(err.message(), "invalid pattern element: pattern cannot be empty");
}

#[test]
fn parser_keeps_the_source_name() {
    let parser = PolicyParser::new("team.policy", "prefix_rule(pattern = [\"git\"])\n");
    assert_eq!(parser.source(), "team.policy");
}
