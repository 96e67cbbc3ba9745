use budgettool_api::manual_entries_gen::{
    generate_journal_text, validate_periodic, validate_price, validate_transaction, PeriodicEntry,
    Posting, PriceEntry, TransactionEntry,
};

fn price(date: &str, commodity: &str, amount: &str, target: &str) -> PriceEntry {
    PriceEntry {
        date: date.into(),
        commodity: commodity.into(),
        amount: amount.into(),
        target_commodity: target.into(),
        comment: String::new(),
    }
}

fn posting(account: &str, amount: Option<&str>, commodity: Option<&str>) -> Posting {
    Posting {
        account: account.into(),
        amount: amount.map(String::from),
        commodity: commodity.map(String::from),
        comment: None,
    }
}

fn txn(date: &str, desc: &str, postings: Vec<Posting>) -> TransactionEntry {
    TransactionEntry {
        date: date.into(),
        status: String::new(),
        code: String::new(),
        description: desc.into(),
        comment: String::new(),
        postings,
    }
}

fn periodic(period: &str, desc: &str, postings: Vec<Posting>) -> PeriodicEntry {
    PeriodicEntry {
        period: period.into(),
        description: desc.into(),
        comment: String::new(),
        postings,
    }
}

#[test]
fn empty_produces_empty_output() {
    let text = generate_journal_text(&[], &[], &[]).unwrap();
    assert_eq!(text, "");
}

#[test]
fn single_price_directive() {
    let prices = vec![price("2026-04-15", "AAPL", "170.50", "USD")];
    let text = generate_journal_text(&prices, &[], &[]).unwrap();
    assert!(
        text.contains("P 2026-04-15 AAPL 170.50 USD\n"),
        "got: {text}"
    );
}

#[test]
fn multiple_prices_in_order() {
    let prices = vec![
        price("2026-04-10", "EUR", "1.08", "USD"),
        price("2026-04-15", "AAPL", "170.50", "USD"),
    ];
    let text = generate_journal_text(&prices, &[], &[]).unwrap();
    let pos_eur = text.find("EUR").unwrap();
    let pos_aapl = text.find("AAPL").unwrap();
    assert!(pos_eur < pos_aapl);
}

#[test]
fn transaction_with_two_postings() {
    let t = txn(
        "2026-04-18",
        "Groceries",
        vec![
            posting("expenses:groceries", Some("50.00"), Some("USD")),
            posting("assets:checking", None, None),
        ],
    );
    let text = generate_journal_text(&[], &[t], &[]).unwrap();
    assert!(text.contains("2026-04-18 Groceries\n"), "got: {text}");
    assert!(text.contains("    expenses:groceries  50.00 USD\n"));
    assert!(text.contains("    assets:checking\n"));
}

#[test]
fn cleared_transaction_status() {
    let mut t = txn(
        "2026-01-01",
        "Salary",
        vec![
            posting("income:salary", Some("3000"), Some("USD")),
            posting("assets:checking", None, None),
        ],
    );
    t.status = "*".into();
    let text = generate_journal_text(&[], &[t], &[]).unwrap();
    assert!(text.contains("2026-01-01 * Salary\n"), "got: {text}");
}

#[test]
fn periodic_transaction() {
    let p = periodic(
        "monthly",
        "Groceries budget",
        vec![
            posting("expenses:groceries", Some("500"), Some("USD")),
            posting("assets:budget", None, None),
        ],
    );
    let text = generate_journal_text(&[], &[], &[p]).unwrap();
    assert!(
        text.contains("~ monthly  Groceries budget\n"),
        "got: {text}"
    );
    assert!(text.contains("    expenses:groceries  500 USD\n"));
}

#[test]
fn sections_ordered_prices_periodics_transactions() {
    let prices = vec![price("2026-01-01", "EUR", "1.08", "USD")];
    let txns = vec![txn(
        "2026-01-02",
        "Misc",
        vec![
            posting("expenses:misc", Some("10"), Some("USD")),
            posting("assets:checking", None, None),
        ],
    )];
    let periodics = vec![periodic(
        "monthly",
        "Budget",
        vec![
            posting("expenses:food", Some("200"), Some("USD")),
            posting("assets:budget", None, None),
        ],
    )];
    let text = generate_journal_text(&prices, &txns, &periodics).unwrap();
    let pos_prices = text.find("Prices").unwrap();
    let pos_periodics = text.find("Periodic").unwrap();
    let pos_transactions = text.find("Manual transactions").unwrap();
    assert!(pos_prices < pos_periodics);
    assert!(pos_periodics < pos_transactions);
}

#[test]
fn validate_bad_date() {
    let p = price("not-a-date", "EUR", "1.0", "USD");
    assert!(validate_price(&p).is_err());
}

#[test]
fn validate_bad_amount() {
    let p = price("2026-01-01", "EUR", "abc", "USD");
    assert!(validate_price(&p).is_err());
}

#[test]
fn validate_empty_commodity() {
    let p = price("2026-01-01", "", "1.0", "USD");
    assert!(validate_price(&p).is_err());
}

#[test]
fn validate_empty_postings() {
    let t = txn("2026-01-01", "Test", vec![]);
    assert!(validate_transaction(&t).is_err());
}

#[test]
fn validate_empty_period() {
    let p = periodic(
        "",
        "Budget",
        vec![posting("expenses:food", Some("100"), Some("USD"))],
    );
    assert!(validate_periodic(&p).is_err());
}

#[test]
fn validate_good_transaction() {
    let t = txn(
        "2026-04-01",
        "Test",
        vec![
            posting("expenses:food", Some("10.00"), Some("USD")),
            posting("assets:cash", None, None),
        ],
    );
    assert!(validate_transaction(&t).is_ok());
}

// Further cases.

fn bad_request(r: Result<(), budgettool_api::error::AppError>) -> String {
    match r {
        Err(budgettool_api::error::AppError::BadRequest(m)) => m,
        other => panic!("unexpected {other:?}"),
    }
}

#[test]
fn validation_messages() {
    assert_eq!(
        bad_request(validate_price(&price("2026-1-1", "EUR", "1", "USD"))),
        "price: invalid date '2026-1-1'; expected YYYY-MM-DD"
    );
    assert_eq!(
        bad_request(validate_price(&price("2026-01-01", "EUR", "1.", "USD"))),
        "price: invalid amount '1.'; expected a decimal number"
    );
    assert_eq!(
        bad_request(validate_price(&price("2026-01-01", "EUR", "1", " "))),
        "price: target commodity cannot be empty"
    );
    assert_eq!(
        bad_request(validate_transaction(&txn("2026-01-01", "T", vec![]))),
        "transaction: must have at least one posting"
    );
    assert_eq!(
        bad_request(validate_transaction(&txn(
            "2026-01-01",
            "T",
            vec![posting("a", Some("x"), None)]
        ))),
        "transaction posting #1: invalid amount 'x'; expected a decimal number"
    );
    assert!(validate_price(&price("2026-01-01", "EUR", "-1.5", "USD")).is_ok());
}

#[test]
fn exact_journal_text() {
    let prices = vec![price("2026-01-01", "EUR", "1.08", "USD")];
    let mut t = txn(
        "2026-01-02",
        "Misc",
        vec![posting("expenses:misc", Some("10"), Some("USD")), posting("assets:cash", None, None)],
    );
    t.code = "42".into();
    let text = generate_journal_text(&prices, &[t], &[]).unwrap();
    assert!(text.starts_with("; --- Prices ---\nP 2026-01-01 EUR 1.08 USD\n"), "got: {text}");
    assert!(text.contains("2026-01-02 (42) Misc\n    expenses:misc  10 USD\n    assets:cash\n"), "got: {text}");
}
