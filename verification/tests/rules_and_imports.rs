use regelator::auth::AdminClaims;
use regelator::config::{
    Config, ConfigError, DatabaseConfig, LoggingConfig, SecurityConfig, ServerConfig,
};
use regelator::imports::{
    parse_answer, parse_definitions, parse_question_with_difficulty, parse_quiz_questions,
    ImportError,
};
use regelator::rules_tree::{
    build_rule_tree, find_parent_rule, find_rule_in_tree, parse_rule_number,
    sort_rule_nodes_recursively, Rule, RuleContent, RuleNode,
};
use regelator::session::resolve_session;
use regelator::slug::generate_slug;
use regelator::views::rewrite_custom_link;

#[test]
fn test_generate_slug() {
    assert_eq!(generate_slug("Affect the play"), "affect-the-play");
    assert_eq!(generate_slug("Act of throwing"), "act-of-throwing");
    assert_eq!(generate_slug("Ultimate Frisbee"), "ultimate-frisbee");
    assert_eq!(generate_slug("Non-contact sport"), "non-contact-sport");
}

fn test_parse_definitions(input: &str) -> Vec<regelator::imports::DefinitionData> {
    let lines: Vec<String> = input.lines().map(|l| l.to_string()).collect();
    parse_definitions(&lines)
}

#[test]
fn test_single_line_definition() {
    let input = "Affect the play: A breach or call affects the play if it is reasonable to assume that the outcome of the specific play may have been meaningfully different had the breach or call not occurred.";

    let definitions = test_parse_definitions(input);

    assert_eq!(definitions.len(), 1);
    assert_eq!(definitions[0].term, "Affect the play");
    assert_eq!(definitions[0].slug, "affect-the-play");
    assert_eq!(definitions[0].definition, "A breach or call affects the play if it is reasonable to assume that the outcome of the specific play may have been meaningfully different had the breach or call not occurred.");
}

#[test]
fn test_multi_line_definition() {
    let input = "Ultimate Frisbee: A sport played by two teams\nof seven players each on a rectangular field\nwith end zones at each end.";

    let definitions = test_parse_definitions(input);

    assert_eq!(definitions.len(), 1);
    assert_eq!(definitions[0].term, "Ultimate Frisbee");
    assert_eq!(definitions[0].slug, "ultimate-frisbee");
    assert_eq!(
        definitions[0].definition,
        "A sport played by two teams\nof seven players each on a rectangular field\nwith end zones at each end."
    );
}

#[test]
fn test_multiple_definitions() {
    let input = "Act of throwing: The act of releasing the disc.\n\nFoul: A violation of the rules.\nCalling fouls is important for fair play.";

    let definitions = test_parse_definitions(input);

    assert_eq!(definitions.len(), 2);

    assert_eq!(definitions[0].term, "Act of throwing");
    assert_eq!(definitions[0].slug, "act-of-throwing");
    assert_eq!(definitions[0].definition, "The act of releasing the disc.");

    assert_eq!(definitions[1].term, "Foul");
    assert_eq!(definitions[1].slug, "foul");
    assert_eq!(
        definitions[1].definition,
        "A violation of the rules.\nCalling fouls is important for fair play."
    );
}

#[test]
fn test_parentheses_and_abbreviations() {
    let input = "Out-of-bounds (OB): Everything that is not part of the playing field, including the perimeter lines.";

    let definitions = test_parse_definitions(input);

    assert_eq!(definitions.len(), 1);
    assert_eq!(definitions[0].term, "Out-of-bounds (OB)");
    assert_eq!(definitions[0].slug, "out-of-bounds-ob");
    assert_eq!(
        definitions[0].definition,
        "Everything that is not part of the playing field, including the perimeter lines."
    );
}

#[test]
fn test_invalid_term_start_ignored() {
    let input = "1.2.3. this should be ignored\nAct of throwing: The act of releasing the disc.";

    let definitions = test_parse_definitions(input);

    assert_eq!(definitions.len(), 1);
    assert_eq!(definitions[0].term, "Act of throwing");
}

#[test]
fn test_definition_with_links() {
    let input = "Affect the play: A [breach](definition:breach) or [call](definition:call) affects the play if it is reasonable to assume that the outcome of the specific play may have been meaningfully different.";

    let definitions = test_parse_definitions(input);

    assert_eq!(definitions.len(), 1);
    assert_eq!(definitions[0].term, "Affect the play");
    assert_eq!(definitions[0].slug, "affect-the-play");
    assert_eq!(
        definitions[0].definition,
        "A [breach](definition:breach) or [call](definition:call) affects the play if it is reasonable to assume that the outcome of the specific play may have been meaningfully different."
    );
}

#[test]
fn test_parse_question_with_difficulty() {
    let result = parse_question_with_difficulty("[BEGINNER] What is the objective of Ultimate?");
    assert!(result.is_ok());
    let (difficulty, question) = result.unwrap();
    assert_eq!(difficulty, "beginner");
    assert_eq!(question, "What is the objective of Ultimate?");
}

#[test]
fn test_parse_answer_correct() {
    let (is_correct, text) =
        parse_answer("Score points by catching the disc in the end zone [CORRECT]");
    assert!(is_correct);
    assert_eq!(text, "Score points by catching the disc in the end zone");
}

#[test]
fn test_parse_answer_incorrect() {
    let (is_correct, text) = parse_answer("Keep possession for as long as possible");
    assert!(!is_correct);
    assert_eq!(text, "Keep possession for as long as possible");
}

#[test]
fn test_parse_quiz_questions_document() {
    let input = "Q: [BEGINNER] What scores a point?\nA: Catching the disc in the end zone [CORRECT]\nA: Running with the disc\nREF: 16.3, 1\nEXPLAIN: A point is scored by\ncatching in the end zone.\n\nQ: [ADVANCED] Second question?\nA: Yes [CORRECT]";
    let lines: Vec<String> = input.lines().map(|l| l.to_string()).collect();
    let questions = parse_quiz_questions(&lines).unwrap();
    assert_eq!(questions.len(), 2);
    assert_eq!(questions[0].question_text, "What scores a point?");
    assert_eq!(questions[0].difficulty, "beginner");
    assert_eq!(questions[0].answers.len(), 2);
    assert!(questions[0].answers[0].is_correct);
    assert_eq!(
        questions[0].answers[0].text,
        "Catching the disc in the end zone"
    );
    assert!(!questions[0].answers[1].is_correct);
    assert_eq!(questions[0].rule_references, vec!["16.3", "1"]);
    assert_eq!(
        questions[0].explanation,
        "A point is scored by\ncatching in the end zone."
    );
    assert_eq!(questions[1].question_text, "Second question?");
    assert_eq!(questions[1].difficulty, "advanced");

    let bad = "Q: [IMPOSSIBLE] Whatever?";
    let bad_lines: Vec<String> = bad.lines().map(|l| l.to_string()).collect();
    assert!(matches!(
        parse_quiz_questions(&bad_lines),
        Err(ImportError::InvalidDifficulty)
    ));
}

fn make_config(host: &str, port: u16, hours: u32, secret: &str) -> Config {
    Config {
        server: ServerConfig {
            host: host.to_string(),
            port,
        },
        database: DatabaseConfig {
            url: "test.db".to_string(),
        },
        security: SecurityConfig {
            session_duration_hours: hours,
            jwt_secret: secret.to_string(),
        },
        logging: LoggingConfig {
            level: "info".to_string(),
            format: "tree".to_string(),
            enable_colors: true,
        },
    }
}

#[test]
fn test_bind_address() {
    let config = make_config(
        "0.0.0.0",
        3000,
        2,
        "test-secret-that-is-long-enough-for-validation",
    );
    assert_eq!(config.bind_address(), "0.0.0.0:3000");
}

#[test]
fn test_session_duration() {
    let config = make_config(
        "127.0.0.1",
        8000,
        4,
        "test-secret-that-is-long-enough-for-validation",
    );
    assert_eq!(config.session_duration(), 4 * 3600);
}

#[test]
fn test_config_validation() {
    let good = make_config("h", 1, 1, "test-secret-that-is-long-enough-for-validation");
    assert_eq!(good.validate(), Ok(()));
    let empty = make_config("h", 1, 1, "");
    assert_eq!(empty.validate(), Err(ConfigError::EmptyJwtSecret));
    let short = make_config("h", 1, 1, "short-secret");
    assert_eq!(short.validate(), Err(ConfigError::ShortJwtSecret));
}

#[test]
fn test_admin_claims_expiry() {
    let claims = AdminClaims::new("a1".to_string(), "root".to_string(), 1000, 3600);
    assert_eq!(claims.iat, 1000);
    assert_eq!(claims.exp, 4600);
    assert!(!claims.is_expired(4600));
    assert!(claims.is_expired(4601));
}

#[test]
fn test_resolve_session_keeps_valid_token() {
    let token = "0191d2c0-0000-7000-8000-000000000000";
    assert!(uuid::Uuid::parse_str(token).is_ok());
    assert_eq!(resolve_session(Some(token)), token);
    let fresh = resolve_session(Some("not-a-uuid"));
    assert_ne!(fresh, "not-a-uuid");
    assert_eq!(fresh.chars().count(), 36);
    assert!(uuid::Uuid::parse_str(&fresh).is_ok());
    let fresh2 = resolve_session(None);
    assert!(uuid::Uuid::parse_str(&fresh2).is_ok());
    let fresh3 = resolve_session(Some(""));
    assert!(uuid::Uuid::parse_str(&fresh3).is_ok());
}

#[test]
fn test_parse_rule_number() {
    assert_eq!(parse_rule_number("16.3"), vec![16, 3]);
    assert_eq!(parse_rule_number("1.2.10"), vec![1, 2, 10]);
    assert_eq!(parse_rule_number("7"), vec![7]);
    // a non-numeric segment counts as zero
    assert_eq!(parse_rule_number("1.x"), vec![1, 0]);
}

#[test]
fn test_find_parent_rule() {
    let known = vec![
        ("1".to_string(), "id-1".to_string()),
        ("1.2".to_string(), "id-1-2".to_string()),
    ];
    assert_eq!(find_parent_rule(&known, "1.2.3"), Some("id-1-2".to_string()));
    assert_eq!(find_parent_rule(&known, "1.2"), Some("id-1".to_string()));
    assert_eq!(find_parent_rule(&known, "1"), None);
    assert_eq!(find_parent_rule(&known, "9.9"), None);
}

#[test]
fn test_rewrite_custom_link() {
    let map = vec![
        (
            "definition".to_string(),
            "/en/rules/wfdf-ultimate/definitions#".to_string(),
        ),
        ("rule".to_string(), "#".to_string()),
    ];
    assert_eq!(
        rewrite_custom_link("definition:throw", &map),
        "/en/rules/wfdf-ultimate/definitions#throw"
    );
    assert_eq!(
        rewrite_custom_link("rule:handling-contested-calls", &map),
        "#handling-contested-calls"
    );
    assert_eq!(
        rewrite_custom_link("https://example.com", &map),
        "https://example.com"
    );
    assert_eq!(rewrite_custom_link("unknown:test", &map), "unknown:test");
    assert_eq!(rewrite_custom_link("plain", &map), "plain");
}

fn create_test_rule_with_content(
    id: &str,
    number: &str,
    slug: &str,
    content: &str,
    parent_id: Option<String>,
) -> (Rule, RuleContent) {
    let rule = Rule {
        id: id.to_string(),
        slug: slug.to_string(),
        rule_set_id: "test_rule_set".to_string(),
        version_id: "test_version".to_string(),
        parent_rule_id: parent_id,
        number: number.to_string(),
        created_at: 0,
        updated_at: 0,
    };

    let rule_content = RuleContent {
        id: format!("{}_content", id),
        rule_id: id.to_string(),
        language: "en".to_string(),
        content_markdown: content.to_string(),
        source_content_id: None,
        created_at: 0,
        updated_at: 0,
    };

    (rule, rule_content)
}

#[test]
fn test_rule_tree_sorting_root_level() {
    let rules = vec![
        create_test_rule_with_content("rule_10", "10", "rule-10", "Rule 10 content", None),
        create_test_rule_with_content("rule_2", "2", "rule-2", "Rule 2 content", None),
        create_test_rule_with_content("rule_1", "1", "rule-1", "Rule 1 content", None),
    ];

    let tree = build_rule_tree(rules, "en", "test-rules");

    assert_eq!(tree.len(), 3);
    assert_eq!(tree[0].number, "1");
    assert_eq!(tree[0].content, "Rule 1 content");
    assert_eq!(tree[1].number, "2");
    assert_eq!(tree[1].content, "Rule 2 content");
    assert_eq!(tree[2].number, "10");
    assert_eq!(tree[2].content, "Rule 10 content");
}

#[test]
fn test_rule_tree_sorting_hierarchical() {
    let rules = vec![
        create_test_rule_with_content("rule_1", "1", "rule-1", "Rule 1 content", None),
        create_test_rule_with_content(
            "rule_1_10",
            "1.10",
            "rule-1-10",
            "Rule 1.10 content",
            Some("rule_1".to_string()),
        ),
        create_test_rule_with_content(
            "rule_1_2",
            "1.2",
            "rule-1-2",
            "Rule 1.2 content",
            Some("rule_1".to_string()),
        ),
        create_test_rule_with_content(
            "rule_1_1",
            "1.1",
            "rule-1-1",
            "Rule 1.1 content",
            Some("rule_1".to_string()),
        ),
    ];

    let tree = build_rule_tree(rules, "en", "test-rules");

    assert_eq!(tree.len(), 1);
    assert_eq!(tree[0].number, "1");
    assert_eq!(tree[0].content, "Rule 1 content");
    assert_eq!(tree[0].children.len(), 3);

    assert_eq!(tree[0].children[0].number, "1.1");
    assert_eq!(tree[0].children[0].content, "Rule 1.1 content");
    assert_eq!(tree[0].children[1].number, "1.2");
    assert_eq!(tree[0].children[1].content, "Rule 1.2 content");
    assert_eq!(tree[0].children[2].number, "1.10");
    assert_eq!(tree[0].children[2].content, "Rule 1.10 content");
}

#[test]
fn test_rule_tree_sorting_deep_hierarchy() {
    let rules = vec![
        create_test_rule_with_content("rule_1", "1", "rule-1", "Rule 1 content", None),
        create_test_rule_with_content(
            "rule_1_2",
            "1.2",
            "rule-1-2",
            "Rule 1.2 content",
            Some("rule_1".to_string()),
        ),
        create_test_rule_with_content(
            "rule_1_2_10",
            "1.2.10",
            "rule-1-2-10",
            "Rule 1.2.10 content",
            Some("rule_1_2".to_string()),
        ),
        create_test_rule_with_content(
            "rule_1_2_2",
            "1.2.2",
            "rule-1-2-2",
            "Rule 1.2.2 content",
            Some("rule_1_2".to_string()),
        ),
        create_test_rule_with_content(
            "rule_1_2_1",
            "1.2.1",
            "rule-1-2-1",
            "Rule 1.2.1 content",
            Some("rule_1_2".to_string()),
        ),
    ];

    let tree = build_rule_tree(rules, "en", "test-rules");

    assert_eq!(tree.len(), 1);
    assert_eq!(tree[0].number, "1");
    assert_eq!(tree[0].children.len(), 1);
    assert_eq!(tree[0].children[0].number, "1.2");
    assert_eq!(tree[0].children[0].children.len(), 3);

    let deep_children = &tree[0].children[0].children;
    assert_eq!(deep_children[0].number, "1.2.1");
    assert_eq!(deep_children[0].content, "Rule 1.2.1 content");
    assert_eq!(deep_children[1].number, "1.2.2");
    assert_eq!(deep_children[1].content, "Rule 1.2.2 content");
    assert_eq!(deep_children[2].number, "1.2.10");
    assert_eq!(deep_children[2].content, "Rule 1.2.10 content");
}

#[test]
fn test_rule_tree_mixed_hierarchy() {
    let rules = vec![
        create_test_rule_with_content("rule_10", "10", "rule-10", "Rule 10 content", None),
        create_test_rule_with_content("rule_2", "2", "rule-2", "Rule 2 content", None),
        create_test_rule_with_content(
            "rule_2_10",
            "2.10",
            "rule-2-10",
            "Rule 2.10 content",
            Some("rule_2".to_string()),
        ),
        create_test_rule_with_content(
            "rule_2_1",
            "2.1",
            "rule-2-1",
            "Rule 2.1 content",
            Some("rule_2".to_string()),
        ),
        create_test_rule_with_content("rule_1", "1", "rule-1", "Rule 1 content", None),
    ];

    let tree = build_rule_tree(rules, "en", "test-rules");

    assert_eq!(tree.len(), 3);

    assert_eq!(tree[0].number, "1");
    assert_eq!(tree[0].content, "Rule 1 content");
    assert_eq!(tree[1].number, "2");
    assert_eq!(tree[1].content, "Rule 2 content");
    assert_eq!(tree[2].number, "10");
    assert_eq!(tree[2].content, "Rule 10 content");

    assert_eq!(tree[1].children.len(), 2);
    assert_eq!(tree[1].children[0].number, "2.1");
    assert_eq!(tree[1].children[0].content, "Rule 2.1 content");
    assert_eq!(tree[1].children[1].number, "2.10");
    assert_eq!(tree[1].children[1].content, "Rule 2.10 content");
}

#[test]
fn test_sort_rule_nodes_recursively() {
    let mut nodes = vec![
        RuleNode {
            number: "10".to_string(),
            slug: "rule-10".to_string(),
            content: "Rule 10 content".to_string(),
            children: vec![
                RuleNode {
                    number: "10.10".to_string(),
                    slug: "rule-10-10".to_string(),
                    content: "Rule 10.10 content".to_string(),
                    children: vec![],
                },
                RuleNode {
                    number: "10.2".to_string(),
                    slug: "rule-10-2".to_string(),
                    content: "Rule 10.2 content".to_string(),
                    children: vec![],
                },
            ],
        },
        RuleNode {
            number: "2".to_string(),
            slug: "rule-2".to_string(),
            content: "Rule 2 content".to_string(),
            children: vec![],
        },
    ];

    sort_rule_nodes_recursively(&mut nodes);

    assert_eq!(nodes[0].number, "2");
    assert_eq!(nodes[0].content, "Rule 2 content");
    assert_eq!(nodes[1].number, "10");
    assert_eq!(nodes[1].content, "Rule 10 content");
    assert_eq!(nodes[1].children[0].number, "10.2");
    assert_eq!(nodes[1].children[0].content, "Rule 10.2 content");
    assert_eq!(nodes[1].children[1].number, "10.10");
    assert_eq!(nodes[1].children[1].content, "Rule 10.10 content");
}

#[test]
fn test_find_rule_in_tree() {
    let rules = vec![
        create_test_rule_with_content("rule_1", "1", "rule-1", "Rule 1 content", None),
        create_test_rule_with_content(
            "rule_1_2",
            "1.2",
            "rule-1-2",
            "Rule 1.2 content",
            Some("rule_1".to_string()),
        ),
    ];
    let tree = build_rule_tree(rules, "en", "test-rules");
    let hit = find_rule_in_tree(&tree, "rule-1-2").unwrap();
    assert_eq!(hit.number, "1.2");
    assert!(find_rule_in_tree(&tree, "rule-9").is_none());
}

#[test]
fn import_quiz_questions_test_process_number_references() {
    let number_to_slug = vec![
        ("16.3".to_string(), "handling-contested-calls".to_string()),
        ("1".to_string(), "spirit-of-the-game".to_string()),
    ];

    let content = "According to 16.3 and Section 1, the disc returns to the thrower.";
    let (processed, broken_refs) =
        regelator::refs::process_number_references(content, &number_to_slug);

    let expected = "According to [16.3](rule:handling-contested-calls) and [Section 1](rule:spirit-of-the-game), the disc returns to the thrower.";
    assert_eq!(processed, expected);
    assert!(broken_refs.is_empty());
}

#[test]
fn import_rules_test_process_number_references() {
    let number_to_slug = vec![
        ("16.3".to_string(), "handling-contested-calls".to_string()),
        ("1".to_string(), "spirit-of-the-game".to_string()),
        ("11.8".to_string(), "observers-and-rules-advisors".to_string()),
    ];

    let content = "If the opposition does not gain possession, apply 16.3 according to Section 1 and Section 11.8.";
    let (processed, broken_refs) =
        regelator::refs::process_number_references(content, &number_to_slug);

    let expected = "If the opposition does not gain possession, apply [16.3](rule:handling-contested-calls) according to [Section 1](rule:spirit-of-the-game) and [Section 11.8](rule:observers-and-rules-advisors).";
    assert_eq!(processed, expected);
    assert!(broken_refs.is_empty());
}

#[test]
fn test_process_number_references_ignores_parenthetical() {
    let number_to_slug = vec![(
        "16.3".to_string(),
        "handling-contested-calls".to_string(),
    )];

    let content = "Add two (2) seconds to the stall count. Apply 16.3 if needed. This results in ten (10) seconds.";
    let (processed, broken_refs) =
        regelator::refs::process_number_references(content, &number_to_slug);

    let expected = "Add two (2) seconds to the stall count. Apply [16.3](rule:handling-contested-calls) if needed. This results in ten (10) seconds.";
    assert_eq!(processed, expected);
    assert!(broken_refs.is_empty());
}

#[test]
fn test_process_number_references_with_broken_refs() {
    let number_to_slug = vec![(
        "16.3".to_string(),
        "handling-contested-calls".to_string(),
    )];

    let content = "Apply 16.3 and also 99.9 here.";
    let (processed, broken_refs) =
        regelator::refs::process_number_references(content, &number_to_slug);

    let expected = "Apply [16.3](rule:handling-contested-calls) and also 99.9 here.";
    assert_eq!(processed, expected);
    assert_eq!(broken_refs, vec!["99.9"]);
}

#[test]
fn test_validate_password_change() {
    assert_eq!(
        regelator::auth::validate_password_change("longenough", "longenough"),
        Ok(())
    );
    assert_eq!(
        regelator::auth::validate_password_change("longenough", "different"),
        Err(regelator::auth::PasswordChangeError::Mismatch)
    );
    assert_eq!(
        regelator::auth::validate_password_change("short", "short"),
        Err(regelator::auth::PasswordChangeError::TooShort)
    );
}

#[test]
fn test_parse_rule_line() {
    let parsed = regelator::imports::parse_rule_line(
        "16.3. handling-contested-calls The disc returns to the thrower.",
    )
    .unwrap();
    assert_eq!(parsed.number, "16.3");
    assert_eq!(parsed.slug, "handling-contested-calls");
    assert_eq!(parsed.content, "The disc returns to the thrower.");

    let top = regelator::imports::parse_rule_line("1. spirit-of-the-game Spirit governs play.")
        .unwrap();
    assert_eq!(top.number, "1");
    assert_eq!(top.slug, "spirit-of-the-game");
    assert_eq!(top.content, "Spirit governs play.");

    // a number without its trailing dot does not open a rule line
    assert!(regelator::imports::parse_rule_line("16.3 slug content").is_none());
    assert!(regelator::imports::parse_rule_line("just prose").is_none());
    assert!(regelator::imports::parse_rule_line("2. slug-only").is_none());
}
