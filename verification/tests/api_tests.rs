use budgettool_api::auth::{authenticate, bearer_token, claims_for, login_outcome, User};
use budgettool_api::error::AppError;
use budgettool_api::files::{
    check_csv_file, check_journal_absent, check_rules_file, check_upload_name,
    check_upload_size, convert_command, csv_file_stem, file_info_with_size, journal_file_name,
    journal_name_for_csv, missing_rules_error, rules_source, stored_file_name, ConvertRequest,
    FileInfo, FileRecord, RulesSource, MAX_FILE_SIZE,
};
use budgettool_api::manual_entries::{
    manual_entries_file_name, CommodityPriceInfo, CommodityPriceRecord, ManualTransactionInfo,
    ManualTransactionRecord, PeriodicTransactionInfo, PeriodicTransactionRecord,
    UpdatePeriodicRequest, UpdatePriceRequest, UpdateTransactionRequest,
};
use budgettool_api::rules::{
    check_config_name, check_preview_csv, include_path, rules_file_name, RulesConfigDetail,
    RulesConfigInfo, RulesConfigRecord, UpdateRequest,
};

fn bad_request<T: std::fmt::Debug>(r: Result<T, AppError>) -> String {
    match r {
        Err(AppError::BadRequest(m)) => m,
        other => panic!("unexpected {other:?}"),
    }
}

// ---------------------------------------------------------------------------
// Errors
// ---------------------------------------------------------------------------

#[test]
fn error_statuses_and_messages() {
    let cases = [
        (AppError::HledgerCommand { exit_code: -2, stderr: "boom".into() }, 500, "hledger error (exit -2): boom"),
        (AppError::HledgerParse("eof".into()), 500, "failed to parse hledger output: eof"),
        (AppError::Io("denied".into()), 500, "IO error: denied"),
        (AppError::BadRequest("x".into()), 400, "bad request: x"),
        (AppError::Unauthorized, 401, "unauthorized"),
        (AppError::NotFound("file 3".into()), 404, "not found: file 3"),
        (AppError::PayloadTooLarge, 413, "payload too large"),
        (AppError::Internal("y".into()), 500, "internal error: y"),
    ];
    for (e, status, message) in cases {
        assert_eq!(e.status_code(), status);
        assert_eq!(e.message(), message);
    }
}

#[test]
fn not_found_names_kind_and_id() {
    match AppError::not_found("rules config", -12) {
        AppError::NotFound(m) => assert_eq!(m, "rules config -12"),
        other => panic!("unexpected {other:?}"),
    }
}

// ---------------------------------------------------------------------------
// Files
// ---------------------------------------------------------------------------

fn record() -> FileRecord {
    FileRecord {
        id: 9,
        user_id: 2,
        filename: "bank.csv".into(),
        file_type: "csv".into(),
        size_bytes: 120,
        disk_path: "/data/2/x_bank.csv".into(),
        created_at: "2026-01-01 00:00:00".into(),
    }
}

#[test]
fn file_info_hides_owner_and_path() {
    let info = FileInfo::from(record());
    assert_eq!(info.id, 9);
    assert_eq!(info.filename, "bank.csv");
    assert_eq!(info.file_type, "csv");
    assert_eq!(info.size_bytes, 120);
    assert_eq!(info.created_at, "2026-01-01 00:00:00");
    let resized = file_info_with_size(&record(), 7);
    assert_eq!(resized.size_bytes, 7);
    assert_eq!(resized.filename, "bank.csv");
}

#[test]
fn upload_names_are_checked() {
    assert_eq!(
        check_upload_name(Some("../x/Bank.CSV.csv")).unwrap(),
        ("Bank.CSV.csv".to_string(), "csv".to_string())
    );
    assert_eq!(bad_request(check_upload_name(None)), "missing filename in Content-Disposition");
    assert_eq!(bad_request(check_upload_name(Some("a/.."))), "invalid filename: a/..");
    assert_eq!(bad_request(check_upload_name(Some("noext"))), "file must have an extension");
    assert_eq!(
        bad_request(check_upload_name(Some("x.exe"))),
        "unsupported file type '.exe'; allowed: journal, csv, rules"
    );
}

#[test]
fn upload_size_limit() {
    assert!(check_upload_size(MAX_FILE_SIZE).is_ok());
    assert!(matches!(check_upload_size(MAX_FILE_SIZE + 1), Err(AppError::PayloadTooLarge)));
    assert_eq!(MAX_FILE_SIZE, 10 * 1024 * 1024);
}

#[test]
fn stored_names() {
    assert_eq!(stored_file_name("u1", "a.csv"), "u1_a.csv");
    assert_eq!(manual_entries_file_name("u2"), "u2_manual-entries.journal");
}

#[test]
fn conversion_checks_and_names() {
    assert!(check_csv_file(3, "csv").is_ok());
    assert_eq!(bad_request(check_csv_file(3, "journal")), "file 3 is not a CSV (type: journal)");
    assert!(check_rules_file(4, "rules").is_ok());
    assert_eq!(bad_request(check_rules_file(4, "csv")), "file 4 is not a rules file (type: csv)");
    assert_eq!(csv_file_stem("a.csv.csv"), "a");
    assert_eq!(csv_file_stem("a.CSV"), "a.CSV");
    assert_eq!(journal_name_for_csv("bank.csv"), "bank.journal");
    match missing_rules_error("bank.csv") {
        AppError::BadRequest(m) => assert_eq!(
            m,
            "no rules file found for 'bank.csv'; upload a .rules file, specify rules_file_id, or use a rules config"
        ),
        other => panic!("unexpected {other:?}"),
    }
    assert_eq!(
        convert_command("/c.csv", "/r.rules"),
        vec!["print", "-f", "/c.csv", "--rules-file", "/r.rules"]
    );
}

#[test]
fn rules_source_preference() {
    let both = ConvertRequest { rules_file_id: Some(1), rules_config_id: Some(2) };
    assert!(matches!(rules_source(&both, "b.csv"), RulesSource::Config(2)));
    let file = ConvertRequest { rules_file_id: Some(1), rules_config_id: None };
    assert!(matches!(rules_source(&file, "b.csv"), RulesSource::File(1)));
    let none = ConvertRequest { rules_file_id: None, rules_config_id: None };
    match rules_source(&none, "b.csv") {
        RulesSource::ByName(n) => assert_eq!(n, "b.rules"),
        other => panic!("unexpected {other:?}"),
    }
}

#[test]
fn journal_creation_names() {
    assert_eq!(journal_file_name(" 2026 ").unwrap(), "2026.journal");
    assert_eq!(journal_file_name("a/b.journal").unwrap(), "b.journal");
    assert_eq!(journal_file_name("..").unwrap(), "...journal");
    assert_eq!(
        bad_request(journal_file_name("a\0.journal")),
        "invalid journal name: a\0.journal"
    );
    assert_eq!(bad_request(journal_file_name("")), "journal name cannot be empty");
    assert!(check_journal_absent(false, "a.journal").is_ok());
    assert_eq!(
        bad_request(check_journal_absent(true, "a.journal")),
        "a journal named 'a.journal' already exists"
    );
}

// ---------------------------------------------------------------------------
// Manual entries
// ---------------------------------------------------------------------------

fn txn_record(postings: &str) -> ManualTransactionRecord {
    ManualTransactionRecord {
        id: 1,
        user_id: 2,
        journal_file_id: 3,
        date: "2026-01-01".into(),
        status: "".into(),
        code: "".into(),
        description: "Rent".into(),
        comment: "".into(),
        postings: postings.into(),
        created_at: "c".into(),
        updated_at: "u".into(),
    }
}

#[test]
fn transaction_info_keeps_json_postings() {
    let info = ManualTransactionInfo::from(txn_record("[{\"account\":\"a\"}]"));
    assert_eq!(info.postings.as_deref(), Some("[{\"account\":\"a\"}]"));
    assert_eq!(info.journal_file_id, 3);
    let broken = ManualTransactionInfo::from(txn_record("[{"));
    assert_eq!(broken.postings, None);
}

#[test]
fn transaction_update_merges_fields() {
    let change = UpdateTransactionRequest {
        date: Some("2026-02-02".into()),
        status: None,
        code: Some("7".into()),
        description: None,
        comment: None,
        postings: Some("[]".into()),
    };
    let r = txn_record("[1]").updated_with(change);
    assert_eq!(r.date, "2026-02-02");
    assert_eq!(r.code, "7");
    assert_eq!(r.description, "Rent");
    assert_eq!(r.postings, "[]");
    assert_eq!(r.id, 1);
    assert_eq!(r.created_at, "c");
}

#[test]
fn price_update_and_info() {
    let rec = CommodityPriceRecord {
        id: 5,
        user_id: 1,
        journal_file_id: 2,
        date: "2026-01-01".into(),
        commodity: "EUR".into(),
        amount: "1.08".into(),
        target_commodity: "USD".into(),
        comment: "".into(),
        created_at: "c".into(),
        updated_at: "u".into(),
    };
    let e = rec.updated_with(UpdatePriceRequest {
        date: None,
        commodity: None,
        amount: Some("1.10".into()),
        target_commodity: None,
        comment: Some("x".into()),
    });
    assert_eq!(e.amount, "1.10");
    assert_eq!(e.commodity, "EUR");
    assert_eq!(e.comment, "x");
    let info = CommodityPriceInfo::from(rec);
    assert_eq!(info.id, 5);
    assert_eq!(info.target_commodity, "USD");
}

#[test]
fn periodic_update_and_info() {
    let rec = PeriodicTransactionRecord {
        id: 6,
        user_id: 1,
        journal_file_id: 2,
        period: "monthly".into(),
        description: "Budget".into(),
        comment: "".into(),
        postings: "not json".into(),
        created_at: "c".into(),
        updated_at: "u".into(),
    };
    let r = rec.updated_with(UpdatePeriodicRequest {
        period: Some("weekly".into()),
        description: None,
        comment: None,
        postings: None,
    });
    assert_eq!(r.period, "weekly");
    assert_eq!(r.postings, "not json");
    let info = PeriodicTransactionInfo::from(rec);
    assert_eq!(info.postings, None);
}

// ---------------------------------------------------------------------------
// Rules configs
// ---------------------------------------------------------------------------

fn config_record(config: &str) -> RulesConfigRecord {
    RulesConfigRecord {
        id: 4,
        user_id: 1,
        name: "Bank".into(),
        description: "d".into(),
        config: config.into(),
        disk_path: None,
        created_at: "c".into(),
        updated_at: "u".into(),
    }
}

#[test]
fn rules_config_views() {
    let info = RulesConfigInfo::from(config_record("{}"));
    assert_eq!(info.name, "Bank");
    let detail = RulesConfigDetail::from(config_record("{\"skip\":1}"));
    assert_eq!(detail.config.as_deref(), Some("{\"skip\":1}"));
    let broken = RulesConfigDetail::from(config_record("{"));
    assert_eq!(broken.config, None);
}

#[test]
fn rules_config_names_and_checks() {
    assert_eq!(rules_file_name("u", "My bank/2026"), "u_My_bank_2026.rules");
    assert_eq!(rules_file_name("u", "é-x_y"), "u_é-x_y.rules");
    assert_eq!(bad_request(check_config_name("  ")), "name is required");
    assert!(check_config_name("x").is_ok());
    assert_eq!(bad_request(check_preview_csv(8, "rules")), "file 8 is not a CSV");
    assert!(check_preview_csv(8, "csv").is_ok());
    let (name, description) = config_record("{}").renamed_with(&UpdateRequest {
        name: Some("New".into()),
        description: None,
        config: None,
    });
    assert_eq!(name, "New");
    assert_eq!(description, "d");
}

#[test]
fn included_config_paths() {
    assert_eq!(include_path(3, Some(Some("/r/3.rules".into()))).unwrap(), (3, "/r/3.rules".to_string()));
    assert_eq!(bad_request(include_path(3, None)), "included rules config 3 not found");
    assert_eq!(
        bad_request(include_path(3, Some(None))),
        "included rules config 3 has not been generated yet"
    );
}

// ---------------------------------------------------------------------------
// Auth
// ---------------------------------------------------------------------------

fn alice(hash: &str) -> User {
    User { id: 1, username: "alice".into(), password: hash.into() }
}

#[test]
fn claims_expire_a_day_later() {
    let c = claims_for(&alice("h"), 1_700_000_000);
    assert_eq!(c.sub, 1);
    assert_eq!(c.username, "alice");
    assert_eq!(c.iat, 1_700_000_000);
    assert_eq!(c.exp, 1_700_086_400);
}

#[test]
fn bearer_tokens() {
    assert_eq!(bearer_token(Some("Bearer abc.def")).unwrap(), "abc.def");
    assert!(matches!(bearer_token(Some("bearer abc")), Err(AppError::Unauthorized)));
    assert!(matches!(bearer_token(None), Err(AppError::Unauthorized)));
    assert_eq!(bearer_token(Some("Bearer ")).unwrap(), "");
}

#[test]
fn login_decisions() {
    assert!(matches!(login_outcome(alice("h"), Ok(false)), Err(AppError::Unauthorized)));
    assert_eq!(login_outcome(alice("h"), Ok(true)).unwrap().id, 1);
    match login_outcome(alice("h"), Err("invalid hash".into())) {
        Err(AppError::Internal(m)) => assert_eq!(m, "bcrypt: invalid hash"),
        other => panic!("unexpected {other:?}"),
    }
    assert!(matches!(authenticate(None, "pw"), Err(AppError::Unauthorized)));
}

#[test]
fn login_checks_the_password_with_bcrypt() {
    let hash = bcrypt::hash("correct horse", 4).unwrap();
    assert_eq!(authenticate(Some(alice(&hash)), "correct horse").unwrap().username, "alice");
    assert!(matches!(authenticate(Some(alice(&hash)), "wrong"), Err(AppError::Unauthorized)));
    assert!(matches!(authenticate(Some(alice("not a hash")), "x"), Err(AppError::Internal(_))));
}

// ---------------------------------------------------------------------------
// hledger runs and report arguments
// ---------------------------------------------------------------------------

#[test]
fn hledger_exit_is_judged() {
    assert!(budgettool_api::hledger::command_result(true, Some(0), String::new()).is_ok());
    match budgettool_api::hledger::command_result(false, Some(2), "bad".into()) {
        Err(AppError::HledgerCommand { exit_code, stderr }) => {
            assert_eq!(exit_code, 2);
            assert_eq!(stderr, "bad");
        }
        other => panic!("unexpected {other:?}"),
    }
    match budgettool_api::hledger::command_result(false, None, "killed".into()) {
        Err(AppError::HledgerCommand { exit_code, .. }) => assert_eq!(exit_code, -1),
        other => panic!("unexpected {other:?}"),
    }
}

#[test]
fn hledger_report_args_ask_for_json() {
    let args = budgettool_api::hledger::json_report_args(&["balance".to_string(), "-f".to_string(), "/a".to_string()]);
    assert_eq!(args, vec!["balance", "-f", "/a", "--output-format=json"]);
}

#[test]
fn journal_file_args_include_existing_sidecars() {
    let journals = vec![
        ("/j/1.journal".to_string(), Some("/j/1.manual.journal".to_string())),
        ("/j/2.journal".to_string(), None),
    ];
    assert_eq!(
        budgettool_api::reports::journal_file_args(&journals).unwrap(),
        vec!["-f", "/j/1.journal", "-f", "/j/1.manual.journal", "-f", "/j/2.journal"]
    );
    assert_eq!(
        bad_request(budgettool_api::reports::journal_file_args(&[])),
        "no journal data yet; upload or create a .journal file first"
    );
}

#[test]
fn settings_need_a_journal() {
    assert!(budgettool_api::files::check_journal_file(5, "journal").is_ok());
    assert_eq!(
        bad_request(budgettool_api::files::check_journal_file(5, "csv")),
        "file 5 is not a journal"
    );
}

#[test]
fn empty_output_is_parse_error() {
    let result = budgettool_api::hledger::parse_report_output(b"");
    assert!(result.is_err());
    assert!(matches!(result, Err(AppError::HledgerParse(_))));
}

#[test]
fn report_output_is_parsed_as_json() {
    let value = budgettool_api::hledger::parse_report_output(b"[1, {\"a\": true}]").unwrap();
    let expected: serde_json::Value = serde_json::from_str("[1,{\"a\":true}]").unwrap();
    assert_eq!(value, expected);
    match budgettool_api::hledger::parse_report_output(b"not json") {
        Err(e @ AppError::HledgerParse(_)) => {
            assert_eq!(e.status_code(), 500);
            assert!(e.message().starts_with("failed to parse hledger output: "));
        }
        other => panic!("unexpected {other:?}"),
    }
}
