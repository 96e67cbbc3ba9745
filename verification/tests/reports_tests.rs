use budgettool_api::reports::{build_args, filter_args, ReportQuery};

fn query(
    begin: Option<&str>,
    end: Option<&str>,
    period: Option<&str>,
    depth: Option<u32>,
    account: Option<&str>,
) -> ReportQuery {
    ReportQuery {
        begin: begin.map(String::from),
        end: end.map(String::from),
        period: period.map(String::from),
        depth,
        account: account.map(String::from),
    }
}

#[test]
fn filter_args_all_none() {
    let args = filter_args(&query(None, None, None, None, None));
    assert!(args.is_empty());
}

#[test]
fn filter_args_begin_end() {
    let args = filter_args(&query(
        Some("2024-01-01"),
        Some("2024-04-01"),
        None,
        None,
        None,
    ));
    assert_eq!(args, vec!["--begin", "2024-01-01", "--end", "2024-04-01"]);
}

#[test]
fn filter_args_period() {
    let args = filter_args(&query(None, None, Some("monthly"), None, None));
    assert_eq!(args, vec!["--period", "monthly"]);
}

#[test]
fn filter_args_depth() {
    let args = filter_args(&query(None, None, None, Some(2), None));
    assert_eq!(args, vec!["--depth", "2"]);
}

#[test]
fn filter_args_account_pattern() {
    let args = filter_args(&query(None, None, None, None, Some("expenses")));
    assert_eq!(args, vec!["expenses"]);
}

#[test]
fn filter_args_all_populated() {
    let args = filter_args(&query(
        Some("2024-01-01"),
        Some("2024-12-31"),
        Some("quarterly"),
        Some(3),
        Some("assets"),
    ));
    assert_eq!(
        args,
        vec![
            "--begin",
            "2024-01-01",
            "--end",
            "2024-12-31",
            "--period",
            "quarterly",
            "--depth",
            "3",
            "assets",
        ]
    );
}

#[test]
fn build_args_combines_correctly() {
    let file_args = vec!["-f".to_string(), "/data/1/a.journal".to_string()];
    let filter = vec!["--begin".to_string(), "2024-01-01".to_string()];
    let args = build_args("balance", &file_args, &filter);
    assert_eq!(
        args,
        vec![
            "balance",
            "-f",
            "/data/1/a.journal",
            "--begin",
            "2024-01-01"
        ]
    );
}

// Further cases.

#[test]
fn filter_args_large_depth() {
    let args = filter_args(&query(None, None, None, Some(4294967295), None));
    assert_eq!(args, vec!["--depth", "4294967295"]);
    let args = filter_args(&query(None, None, None, Some(0), None));
    assert_eq!(args, vec!["--depth", "0"]);
}

#[test]
fn build_args_with_nothing_but_subcommand() {
    let args = build_args("register", &[], &[]);
    assert_eq!(args, vec!["register"]);
}
