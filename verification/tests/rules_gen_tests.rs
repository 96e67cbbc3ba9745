use budgettool_api::rules_gen::{
    generate_rules_text, validate, ConditionalRule, ConditionalType, DecimalMark,
    FieldAssignment, MatchGroup, Matcher, RulesConfig, Separator, TableRow,
};

fn generate(config: &RulesConfig) -> String {
    generate_rules_text(config, &[]).expect("generation failed")
}

#[test]
fn empty_config_produces_empty_output() {
    let config = RulesConfig::default();
    assert_eq!(generate(&config), "");
}

#[test]
fn skip_directive() {
    let config = RulesConfig {
        skip: Some(2),
        ..Default::default()
    };
    assert!(generate(&config).contains("skip 2\n"));
}

#[test]
fn separator_directives() {
    let cases = [
        (Separator::Comma, "separator comma"),
        (Separator::Semicolon, "separator semicolon"),
        (Separator::Tab, "separator TAB"),
        (Separator::Space, "separator SPACE"),
    ];
    for (sep, expected) in cases {
        let config = RulesConfig {
            separator: Some(sep),
            ..Default::default()
        };
        assert!(
            generate(&config).contains(expected),
            "expected '{expected}'"
        );
    }
}

#[test]
fn date_format_directive() {
    let config = RulesConfig {
        date_format: Some("%d/%m/%Y".into()),
        ..Default::default()
    };
    assert!(generate(&config).contains("date-format %d/%m/%Y\n"));
}

#[test]
fn decimal_mark_directive() {
    let config = RulesConfig {
        decimal_mark: Some(DecimalMark::Comma),
        ..Default::default()
    };
    assert!(generate(&config).contains("decimal-mark ,\n"));
}

#[test]
fn newest_first_directive() {
    let config = RulesConfig {
        newest_first: Some(true),
        ..Default::default()
    };
    assert!(generate(&config).contains("newest-first\n"));
}

#[test]
fn balance_type_directive() {
    let config = RulesConfig {
        balance_type: Some("==".into()),
        ..Default::default()
    };
    assert!(generate(&config).contains("balance-type ==\n"));
}

#[test]
fn invalid_balance_type_is_rejected() {
    let config = RulesConfig {
        balance_type: Some("bad".into()),
        ..Default::default()
    };
    assert!(generate_rules_text(&config, &[]).is_err());
}

#[test]
fn fields_directive() {
    let config = RulesConfig {
        fields: vec![
            "date".into(),
            "".into(),
            "description".into(),
            "amount".into(),
        ],
        ..Default::default()
    };
    let text = generate(&config);
    assert!(text.contains("fields date, , description, amount\n"));
}

#[test]
fn top_level_assignments() {
    let config = RulesConfig {
        assignments: vec![
            FieldAssignment {
                field: "account1".into(),
                value: "assets:bank".into(),
            },
            FieldAssignment {
                field: "description".into(),
                value: "%3".into(),
            },
        ],
        ..Default::default()
    };
    let text = generate(&config);
    assert!(text.contains("account1 assets:bank\n"));
    assert!(text.contains("description %3\n"));
}

#[test]
fn invalid_field_name_is_rejected() {
    let config = RulesConfig {
        assignments: vec![FieldAssignment {
            field: "notafield".into(),
            value: "foo".into(),
        }],
        ..Default::default()
    };
    assert!(generate_rules_text(&config, &[]).is_err());
}

#[test]
fn single_matcher_block_conditional() {
    let config = RulesConfig {
        conditionals: vec![ConditionalRule {
            rule_type: ConditionalType::Block,
            match_groups: vec![MatchGroup {
                matchers: vec![Matcher {
                    pattern: "groceries".into(),
                    field: None,
                    negate: false,
                }],
            }],
            assignments: vec![FieldAssignment {
                field: "account2".into(),
                value: "expenses:groceries".into(),
            }],
            skip: false,
            end: false,
            table_fields: vec![],
            table_rows: vec![],
        }],
        ..Default::default()
    };
    let text = generate(&config);
    assert!(text.contains("if groceries\n"));
    assert!(text.contains("  account2 expenses:groceries\n"));
}

#[test]
fn multi_group_or_conditional() {
    let config = RulesConfig {
        conditionals: vec![ConditionalRule {
            rule_type: ConditionalType::Block,
            match_groups: vec![
                MatchGroup {
                    matchers: vec![Matcher {
                        pattern: "amazon".into(),
                        field: None,
                        negate: false,
                    }],
                },
                MatchGroup {
                    matchers: vec![Matcher {
                        pattern: "ebay".into(),
                        field: None,
                        negate: false,
                    }],
                },
            ],
            assignments: vec![FieldAssignment {
                field: "account2".into(),
                value: "expenses:shopping".into(),
            }],
            skip: false,
            end: false,
            table_fields: vec![],
            table_rows: vec![],
        }],
        ..Default::default()
    };
    let text = generate(&config);
    assert!(text.contains("if\n"));
    assert!(text.contains("amazon\n"));
    assert!(text.contains("ebay\n"));
}

#[test]
fn and_matchers_within_group() {
    let config = RulesConfig {
        conditionals: vec![ConditionalRule {
            rule_type: ConditionalType::Block,
            match_groups: vec![MatchGroup {
                matchers: vec![
                    Matcher {
                        pattern: "amazon".into(),
                        field: None,
                        negate: false,
                    },
                    Matcher {
                        pattern: "100\\.".into(),
                        field: Some("amount".into()),
                        negate: false,
                    },
                ],
            }],
            assignments: vec![FieldAssignment {
                field: "account2".into(),
                value: "expenses:shopping".into(),
            }],
            skip: false,
            end: false,
            table_fields: vec![],
            table_rows: vec![],
        }],
        ..Default::default()
    };
    let text = generate(&config);
    assert!(text.contains("if amazon\n"));
    assert!(text.contains("& %amount 100\\.\n"));
}

#[test]
fn negated_matcher() {
    let config = RulesConfig {
        conditionals: vec![ConditionalRule {
            rule_type: ConditionalType::Block,
            match_groups: vec![MatchGroup {
                matchers: vec![Matcher {
                    pattern: "transfer".into(),
                    field: None,
                    negate: true,
                }],
            }],
            assignments: vec![FieldAssignment {
                field: "account2".into(),
                value: "expenses:misc".into(),
            }],
            skip: false,
            end: false,
            table_fields: vec![],
            table_rows: vec![],
        }],
        ..Default::default()
    };
    let text = generate(&config);
    assert!(text.contains("if ! transfer\n"));
}

#[test]
fn field_specific_matcher() {
    let config = RulesConfig {
        conditionals: vec![ConditionalRule {
            rule_type: ConditionalType::Block,
            match_groups: vec![MatchGroup {
                matchers: vec![Matcher {
                    pattern: "salary".into(),
                    field: Some("description".into()),
                    negate: false,
                }],
            }],
            assignments: vec![FieldAssignment {
                field: "account2".into(),
                value: "income:salary".into(),
            }],
            skip: false,
            end: false,
            table_fields: vec![],
            table_rows: vec![],
        }],
        ..Default::default()
    };
    let text = generate(&config);
    assert!(text.contains("if %description salary\n"));
}

#[test]
fn skip_inside_conditional() {
    let config = RulesConfig {
        conditionals: vec![ConditionalRule {
            rule_type: ConditionalType::Block,
            match_groups: vec![MatchGroup {
                matchers: vec![Matcher {
                    pattern: "OPENING BALANCE".into(),
                    field: None,
                    negate: false,
                }],
            }],
            assignments: vec![],
            skip: true,
            end: false,
            table_fields: vec![],
            table_rows: vec![],
        }],
        ..Default::default()
    };
    let text = generate(&config);
    assert!(text.contains("  skip\n"));
}

#[test]
fn table_conditional() {
    let config = RulesConfig {
        conditionals: vec![ConditionalRule {
            rule_type: ConditionalType::Table,
            match_groups: vec![],
            assignments: vec![],
            skip: false,
            end: false,
            table_fields: vec!["account2".into(), "comment".into()],
            table_rows: vec![
                TableRow {
                    pattern: "groceries".into(),
                    values: vec!["expenses:groceries".into(), "food".into()],
                },
                TableRow {
                    pattern: "salary".into(),
                    values: vec!["income:salary".into(), "".into()],
                },
            ],
        }],
        ..Default::default()
    };
    let text = generate(&config);
    assert!(text.contains("if,account2,comment\n"));
    assert!(text.contains("groceries,expenses:groceries,food\n"));
    assert!(text.contains("salary,income:salary,\n"));
}

#[test]
fn invalid_regex_is_rejected() {
    let config = RulesConfig {
        conditionals: vec![ConditionalRule {
            rule_type: ConditionalType::Block,
            match_groups: vec![MatchGroup {
                matchers: vec![Matcher {
                    pattern: "[invalid".into(),
                    field: None,
                    negate: false,
                }],
            }],
            assignments: vec![],
            skip: false,
            end: false,
            table_fields: vec![],
            table_rows: vec![],
        }],
        ..Default::default()
    };
    assert!(generate_rules_text(&config, &[]).is_err());
}

#[test]
fn include_directive() {
    let config = RulesConfig {
        includes: vec![42],
        ..Default::default()
    };
    let paths = vec![(42i64, "/data/files/1/abc_other.rules".to_string())];
    let text = generate_rules_text(&config, &paths).expect("ok");
    assert!(text.contains("include /data/files/1/abc_other.rules\n"));
}

#[test]
fn full_config_generation() {
    let config = RulesConfig {
        skip: Some(1),
        separator: Some(Separator::Comma),
        date_format: Some("%d/%m/%Y".into()),
        fields: vec![
            "date".into(),
            "description".into(),
            "".into(),
            "amount".into(),
        ],
        assignments: vec![FieldAssignment {
            field: "account1".into(),
            value: "assets:bank:checking".into(),
        }],
        conditionals: vec![ConditionalRule {
            rule_type: ConditionalType::Block,
            match_groups: vec![MatchGroup {
                matchers: vec![Matcher {
                    pattern: "SUPERMARKET".into(),
                    field: None,
                    negate: false,
                }],
            }],
            assignments: vec![FieldAssignment {
                field: "account2".into(),
                value: "expenses:groceries".into(),
            }],
            skip: false,
            end: false,
            table_fields: vec![],
            table_rows: vec![],
        }],
        ..Default::default()
    };

    let text = generate(&config);
    assert!(text.contains("skip 1\n"));
    assert!(text.contains("separator comma\n"));
    assert!(text.contains("date-format %d/%m/%Y\n"));
    assert!(text.contains("fields date, description, , amount\n"));
    assert!(text.contains("account1 assets:bank:checking\n"));
    assert!(text.contains("if SUPERMARKET\n"));
    assert!(text.contains("  account2 expenses:groceries\n"));
}

// Further cases.

fn err_message(r: Result<String, budgettool_api::error::AppError>) -> String {
    match r {
        Err(budgettool_api::error::AppError::BadRequest(m)) => m,
        other => panic!("unexpected {other:?}"),
    }
}

#[test]
fn rejection_messages() {
    let config = RulesConfig {
        balance_type: Some("bad".into()),
        ..Default::default()
    };
    assert_eq!(
        err_message(generate_rules_text(&config, &[])),
        "invalid balance-type 'bad'; must be one of: =, =*, ==, ==*"
    );
    let config = RulesConfig {
        assignments: vec![FieldAssignment {
            field: "nope".into(),
            value: "v".into(),
        }],
        ..Default::default()
    };
    assert_eq!(
        err_message(generate_rules_text(&config, &[])),
        "invalid hledger field name: 'nope'"
    );
}

#[test]
fn invalid_regex_message_names_the_pattern() {
    let config = RulesConfig {
        conditionals: vec![ConditionalRule {
            rule_type: ConditionalType::Block,
            match_groups: vec![MatchGroup {
                matchers: vec![Matcher {
                    pattern: "(".into(),
                    field: None,
                    negate: false,
                }],
            }],
            assignments: vec![],
            skip: false,
            end: false,
            table_fields: vec![],
            table_rows: vec![],
        }],
        ..Default::default()
    };
    let m = err_message(generate_rules_text(&config, &[]));
    assert!(m.starts_with("conditional #1: invalid regex pattern '(': "), "got {m}");
    assert!(m.len() > "conditional #1: invalid regex pattern '(': ".len());
}

#[test]
fn generation_succeeds_exactly_when_validation_does() {
    let good = RulesConfig {
        skip: Some(3),
        ..Default::default()
    };
    assert!(validate(&good).is_ok());
    assert!(generate_rules_text(&good, &[]).is_ok());
    let bad = RulesConfig {
        assignments: vec![FieldAssignment {
            field: "x".into(),
            value: "y".into(),
        }],
        ..Default::default()
    };
    assert!(validate(&bad).is_err());
    assert!(generate_rules_text(&bad, &[]).is_err());
}

#[test]
fn exact_small_config_text() {
    let config = RulesConfig {
        skip: Some(1),
        separator: Some(Separator::Semicolon),
        decimal_mark: Some(DecimalMark::Dot),
        ..Default::default()
    };
    assert_eq!(generate(&config), "skip 1\nseparator semicolon\ndecimal-mark .\n");
}

#[test]
fn empty_match_groups_are_ignored() {
    let matcher = |p: &str| Matcher { pattern: p.into(), field: None, negate: false };
    let rule = |groups: Vec<MatchGroup>| ConditionalRule {
        rule_type: ConditionalType::Block,
        match_groups: groups,
        assignments: vec![FieldAssignment { field: "account2".into(), value: "x".into() }],
        skip: false,
        end: true,
        table_fields: vec![],
        table_rows: vec![],
    };
    let with_empty = RulesConfig {
        conditionals: vec![rule(vec![
            MatchGroup { matchers: vec![] },
            MatchGroup { matchers: vec![matcher("shop")] },
        ])],
        ..Default::default()
    };
    let without = RulesConfig {
        conditionals: vec![rule(vec![MatchGroup { matchers: vec![matcher("shop")] }])],
        ..Default::default()
    };
    assert_eq!(generate(&with_empty), generate(&without));
    assert_eq!(generate(&without), "\nif shop\n  account2 x\n  end\n");
    let all_empty = RulesConfig {
        conditionals: vec![rule(vec![MatchGroup { matchers: vec![] }])],
        ..Default::default()
    };
    assert_eq!(generate(&all_empty), "\n");
}

fn table_rule(fields: Vec<&str>, patterns: Vec<&str>) -> RulesConfig {
    RulesConfig {
        conditionals: vec![ConditionalRule {
            rule_type: ConditionalType::Table,
            match_groups: vec![],
            assignments: vec![],
            skip: false,
            end: false,
            table_fields: fields.into_iter().map(String::from).collect(),
            table_rows: patterns
                .into_iter()
                .map(|p| TableRow {
                    pattern: p.into(),
                    values: vec![],
                })
                .collect(),
        }],
        ..Default::default()
    }
}

fn validation_message(config: &RulesConfig) -> String {
    match validate(config) {
        Err(budgettool_api::error::AppError::BadRequest(m)) => m,
        other => panic!("unexpected {other:?}"),
    }
}

#[test]
fn table_rules_are_checked_field_by_field_and_row_by_row() {
    assert!(validate(&table_rule(vec!["", "account2"], vec!["shop", "rent"])).is_ok());
    assert_eq!(
        validation_message(&table_rule(vec!["account2", "bogus"], vec!["shop"])),
        "conditional #1 (table): invalid hledger field name: 'bogus'"
    );
    let m = validation_message(&table_rule(vec!["account2"], vec!["shop", "("]));
    assert!(m.starts_with("conditional #1 (table row): invalid regex pattern '(': "), "got {m}");
}
