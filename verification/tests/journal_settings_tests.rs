use budgettool_api::error::AppError;
use budgettool_api::journal_settings::{
    apply_managed_header, import_journal, include_target_paths, journals_by_path,
    map_row_to_data, normalize_settings, parse_managed_header, parse_preamble_line,
    render_default_commodity_amount, render_managed_header, replace_managed_header,
    split_inclusive_lines, split_unmanaged_journal, validate_settings_shape, AccountSetting,
    CommoditySetting, IncludeWalk, JournalFileRef, JournalIndex, JournalSettingsData,
    JournalSettingsRow, PreambleLine, HEADER_BEGIN, HEADER_END,
};

fn ref_map(entries: &[(&str, i64)]) -> JournalIndex {
    let refs: Vec<JournalFileRef> = entries
        .iter()
        .map(|(path, id)| JournalFileRef {
            id: *id,
            disk_path: (*path).to_string(),
        })
        .collect();
    journals_by_path(&refs)
}

#[test]
fn render_header_uses_stable_order() {
    let settings = JournalSettingsData {
        default_commodity: Some("USD".into()),
        decimal_mark: Some(",".into()),
        commodities: vec![CommoditySetting {
            sample: "1.000,00 EUR".into(),
        }],
        accounts: vec![AccountSetting {
            name: "assets:cash".into(),
        }],
        includes: vec![2],
    };

    let rendered = render_managed_header(&settings, &["/data/2.journal".into()]);
    assert!(rendered.contains("D 1,00 USD\ndecimal-mark ,\ncommodity 1.000,00 EUR\naccount assets:cash\ninclude /data/2.journal\n"));
}

#[test]
fn imports_supported_directives_from_preamble() {
    let text = "D 1.00 USD\ndecimal-mark ,\ncommodity 1.000,00 EUR\naccount assets:cash\ninclude /a/other.journal\n; keep me\n\n2026-01-01 Opening\n  assets:cash  1 USD\n";
    let imported = split_unmanaged_journal(text, &ref_map(&[("/a/other.journal", 7)])).unwrap();
    assert_eq!(
        imported.settings.default_commodity.as_deref(),
        Some("1.00 USD")
    );
    assert_eq!(imported.settings.decimal_mark.as_deref(), Some(","));
    assert_eq!(imported.settings.includes, vec![7]);
    assert_eq!(imported.settings.accounts[0].name, "assets:cash");
    assert_eq!(imported.unsupported_preamble, "; keep me\n\n");
    assert!(imported.body.starts_with("2026-01-01 Opening"));
}

#[test]
fn unresolved_include_is_preserved_as_unsupported() {
    let text = "include ./relative.journal\naccount assets:cash\n";
    let imported = split_unmanaged_journal(text, &ref_map(&[])).unwrap();
    assert_eq!(imported.settings.includes, Vec::<i64>::new());
    assert_eq!(
        imported.unsupported_preamble,
        "include ./relative.journal\n"
    );
}

#[test]
fn replace_only_managed_block() {
    let content = format!(
        "{HEADER_BEGIN}\nD 1.00 USD\n{HEADER_END}\n\n; tail\n2026-01-01 Test\n  assets:cash  1 USD\n"
    );
    let replaced = replace_managed_header(
        &content,
        &format!("{HEADER_BEGIN}\nD 1.00 EUR\n{HEADER_END}\n\n"),
    );
    assert!(replaced.contains("D 1.00 EUR"));
    assert!(replaced.contains("; tail\n2026-01-01 Test"));
    assert!(!replaced.contains("D 1.00 USD"));
}

#[test]
fn render_default_commodity_symbol_as_valid_d_amount() {
    let settings = JournalSettingsData {
        default_commodity: Some("DKK".into()),
        decimal_mark: Some(",".into()),
        ..Default::default()
    };

    let rendered = render_managed_header(&settings, &[]);
    assert!(rendered.contains("D 1,00 DKK\n"));
}

// Further cases.

fn sample_settings() -> JournalSettingsData {
    JournalSettingsData {
        default_commodity: Some("EUR".into()),
        decimal_mark: Some(".".into()),
        commodities: vec![CommoditySetting {
            sample: "1,000.00 EUR".into(),
        }],
        accounts: vec![
            AccountSetting {
                name: "assets:bank".into(),
            },
            AccountSetting {
                name: "expenses:food".into(),
            },
        ],
        includes: vec![5],
    }
}

#[test]
fn rendered_header_exact_text() {
    let rendered = render_managed_header(&sample_settings(), &["/d/5.journal".into()]);
    assert_eq!(
        rendered,
        format!(
            "{HEADER_BEGIN}\nD 1.00 EUR\ndecimal-mark .\ncommodity 1,000.00 EUR\naccount assets:bank\naccount expenses:food\ninclude /d/5.journal\n{HEADER_END}\n\n"
        )
    );
}

#[test]
fn written_header_reads_back() {
    let settings = sample_settings();
    let header = render_managed_header(&settings, &["/d/5.journal".into()]);
    let journal = format!("{header}2026-01-01 Test\n  assets:bank  1 EUR\n");
    let index = ref_map(&[("/d/5.journal", 5)]);
    let read = parse_managed_header(&journal, &index).unwrap();
    assert!(read.has_managed_header);
    assert_eq!(read.settings.default_commodity.as_deref(), Some("1.00 EUR"));
    assert_eq!(read.settings.decimal_mark.as_deref(), Some("."));
    assert_eq!(read.settings.commodities, settings.commodities);
    assert_eq!(read.settings.accounts, settings.accounts);
    assert_eq!(read.settings.includes, vec![5]);
    // The line break after the begin marker is read as a blank line.
    assert_eq!(read.unsupported_preamble, "\n");
    assert_eq!(read.body, "\n2026-01-01 Test\n  assets:bank  1 EUR\n");
}

#[test]
fn applying_a_header_again_replaces_the_block() {
    let index = ref_map(&[]);
    let header = render_managed_header(&sample_settings(), &["/d/5.journal".into()]);
    let original = "account old\n; note\n2026-01-01 Test\n  a  1\n";
    let once = apply_managed_header(original, &header, &index).unwrap();
    assert_eq!(once, format!("{header}; note\n2026-01-01 Test\n  a  1\n"));
    // The block runs to the end of the end marker's line, so the blank line
    // after it stays and a new one comes with the header.
    let twice = apply_managed_header(&once, &header, &index).unwrap();
    assert_eq!(twice, format!("{header}\n; note\n2026-01-01 Test\n  a  1\n"));
}

#[test]
fn import_prefers_the_managed_header() {
    let index = ref_map(&[]);
    let text = format!("account outside\n{HEADER_BEGIN}\naccount inside\n{HEADER_END}\nrest\n");
    let read = import_journal(&text, &index).unwrap();
    assert!(read.has_managed_header);
    assert_eq!(read.settings.accounts[0].name, "inside");
    assert_eq!(read.body, "account outside\nrest\n");
    let plain = import_journal("account a\n2026-02-02 x\n", &index).unwrap();
    assert!(!plain.has_managed_header);
    assert_eq!(plain.settings.accounts[0].name, "a");
    assert_eq!(plain.body, "2026-02-02 x\n");
}

#[test]
fn preamble_lines_are_classified() {
    assert!(matches!(parse_preamble_line("  ; comment"), PreambleLine::Unsupported(_)));
    assert!(matches!(
        parse_preamble_line("decimal-mark ,\n"),
        PreambleLine::DecimalMark { ref value } if value == ","
    ));
    assert!(matches!(
        parse_preamble_line("account   x:y  \n"),
        PreambleLine::Account { ref name } if name == "x:y"
    ));
    assert!(matches!(parse_preamble_line("account\n"), PreambleLine::Unsupported(_)));
    assert!(matches!(
        parse_preamble_line("include /a.journal\n"),
        PreambleLine::Include { ref path, ref raw } if path == "/a.journal" && raw == "include /a.journal\n"
    ));
    assert!(matches!(
        parse_preamble_line("D $1.00\n"),
        PreambleLine::DefaultCommodity { ref value } if value == "$1.00"
    ));
}

#[test]
fn lines_keep_their_breaks() {
    assert_eq!(split_inclusive_lines("a\nb\n\nc"), vec!["a\n", "b\n", "\n", "c"]);
    assert!(split_inclusive_lines("").is_empty());
}

#[test]
fn default_commodity_amounts() {
    assert_eq!(render_default_commodity_amount(" USD ", None), "1.00 USD");
    assert_eq!(render_default_commodity_amount("$", Some(",")), "$1,00");
    assert_eq!(render_default_commodity_amount("5 EUR", Some(",")), "5 EUR");
    assert_eq!(render_default_commodity_amount("", None), "1.00");
}

#[test]
fn settings_are_normalized() {
    let input = JournalSettingsData {
        default_commodity: Some("  ".into()),
        decimal_mark: Some(" , ".into()),
        commodities: vec![
            CommoditySetting { sample: " ".into() },
            CommoditySetting { sample: " 1 X ".into() },
        ],
        accounts: vec![AccountSetting { name: " a ".into() }],
        includes: vec![3, 4],
    };
    let n = normalize_settings(&input);
    assert_eq!(n.default_commodity, None);
    assert_eq!(n.decimal_mark.as_deref(), Some(","));
    assert_eq!(n.commodities, vec![CommoditySetting { sample: "1 X".into() }]);
    assert_eq!(n.accounts, vec![AccountSetting { name: "a".into() }]);
    assert_eq!(n.includes, vec![3, 4]);
    assert_eq!(normalize_settings(&n), n);
}

fn bad_request(r: Result<(), AppError>) -> String {
    match r {
        Err(AppError::BadRequest(m)) => m,
        other => panic!("unexpected {other:?}"),
    }
}

#[test]
fn settings_shape_errors() {
    let mut s = JournalSettingsData::default();
    assert!(validate_settings_shape(&s).is_ok());
    s.decimal_mark = Some(";".into());
    assert_eq!(bad_request(validate_settings_shape(&s)), "decimal_mark must be '.' or ','");
    s.decimal_mark = None;
    s.commodities = vec![CommoditySetting { sample: " ".into() }];
    assert_eq!(bad_request(validate_settings_shape(&s)), "commodity samples cannot be empty");
    s.commodities = vec![];
    s.accounts = vec![AccountSetting { name: "a".into() }, AccountSetting { name: " a".into() }];
    assert_eq!(bad_request(validate_settings_shape(&s)), "duplicate account declaration: a");
    s.accounts = vec![AccountSetting { name: "".into() }];
    assert_eq!(bad_request(validate_settings_shape(&s)), "account names cannot be empty");
}

#[test]
fn include_targets_are_checked() {
    let journals = vec![
        JournalFileRef { id: 1, disk_path: "/j/1".into() },
        JournalFileRef { id: 2, disk_path: "/j/2".into() },
    ];
    assert_eq!(include_target_paths(1, &vec![2], &journals).unwrap(), vec!["/j/2".to_string()]);
    let err = |r: Result<Vec<String>, AppError>| match r {
        Err(AppError::BadRequest(m)) => m,
        other => panic!("unexpected {other:?}"),
    };
    assert_eq!(err(include_target_paths(1, &vec![1], &journals)), "journal cannot include itself");
    assert_eq!(err(include_target_paths(1, &vec![2, 2], &journals)), "duplicate include target: 2");
    assert_eq!(err(include_target_paths(1, &vec![9], &journals)), "included journal 9 not found");
}

#[test]
fn include_walk_finds_cycles() {
    // 1 includes 2, 2 includes 3, 3 includes 1.
    let mut walk = IncludeWalk::new(1, &vec![2]);
    assert_eq!(walk.advance().unwrap(), Some(2));
    walk.extend(&vec![3]);
    assert_eq!(walk.advance().unwrap(), Some(3));
    walk.extend(&vec![1]);
    match walk.advance() {
        Err(AppError::BadRequest(m)) => assert_eq!(m, "journal includes create a cycle"),
        other => panic!("unexpected {other:?}"),
    }
}

#[test]
fn include_walk_visits_each_journal_once() {
    let mut walk = IncludeWalk::new(1, &vec![2, 3]);
    assert_eq!(walk.advance().unwrap(), Some(3));
    walk.extend(&vec![2]);
    assert_eq!(walk.advance().unwrap(), Some(2));
    walk.extend(&vec![]);
    assert_eq!(walk.advance().unwrap(), None);
}

#[test]
fn stored_rows_become_settings() {
    let row = JournalSettingsRow {
        file_id: 4,
        default_commodity: Some(" ".into()),
        decimal_mark: Some(",".into()),
        commodities: vec![],
        accounts: vec![AccountSetting { name: "x".into() }],
        includes: vec![8],
    };
    let data = map_row_to_data(row);
    assert_eq!(data.default_commodity, None);
    assert_eq!(data.decimal_mark.as_deref(), Some(","));
    assert_eq!(data.includes, vec![8]);
}

#[test]
fn lines_put_back_together_are_the_text() {
    for text in ["", "a", "a\n", "a\nb", "\n\n", "x\r\ny\n"] {
        assert_eq!(split_inclusive_lines(text).concat(), text);
    }
}

#[test]
fn include_walk_never_hands_out_the_root() {
    let mut walk = IncludeWalk::new(7, &vec![7]);
    assert!(matches!(walk.advance(), Err(AppError::BadRequest(_))));
    let mut walk = IncludeWalk::new(7, &vec![]);
    assert_eq!(walk.advance().unwrap(), None);
}

#[test]
fn values_holding_the_end_marker_cut_the_header_short() {
    // The round trip of a header needs values free of the end marker.
    let settings = JournalSettingsData {
        accounts: vec![
            AccountSetting {
                name: format!("x{HEADER_END}"),
            },
            AccountSetting { name: "b".into() },
        ],
        ..Default::default()
    };
    let header = render_managed_header(&settings, &[]);
    let read = parse_managed_header(&header, &ref_map(&[])).unwrap();
    assert_ne!(read.settings.accounts, settings.accounts);
}

#[test]
fn settings_written_into_a_journal_read_back() {
    let settings = sample_settings();
    let index = ref_map(&[("/d/5.journal", 5)]);
    let header = render_managed_header(&settings, &["/d/5.journal".into()]);
    let journals = [
        String::new(),
        "2026-01-01 x\n  a  1\n".to_string(),
        format!("; top\n{HEADER_BEGIN}\naccount old\n{HEADER_END}\n2026-01-01 x\n"),
        format!("{HEADER_END}\n{HEADER_BEGIN}\n"),
    ];
    for existing in journals {
        let written = apply_managed_header(&existing, &header, &index).unwrap();
        let read = import_journal(&written, &index).unwrap();
        assert!(read.has_managed_header);
        assert_eq!(read.unsupported_preamble, "\n");
        assert_eq!(read.settings.default_commodity.as_deref(), Some("1.00 EUR"));
        assert_eq!(read.settings.decimal_mark, settings.decimal_mark);
        assert_eq!(read.settings.commodities, settings.commodities);
        assert_eq!(read.settings.accounts, settings.accounts);
        assert_eq!(read.settings.includes, settings.includes);
    }
}

/// Drives the walk over an include graph as the settings writer does;
/// `true` when it reports a cycle.
fn walk_reports_cycle(root: i64, graph: &std::collections::HashMap<i64, Vec<i64>>) -> bool {
    let empty = Vec::new();
    let mut walk = IncludeWalk::new(root, graph.get(&root).unwrap_or(&empty));
    loop {
        match walk.advance() {
            Err(_) => return true,
            Ok(None) => return false,
            Ok(Some(id)) => walk.extend(graph.get(&id).unwrap_or(&empty)),
        }
    }
}

#[test]
fn include_walk_reports_cycles_exactly_when_the_root_is_reachable() {
    let graph: std::collections::HashMap<i64, Vec<i64>> =
        [(1, vec![2, 3]), (2, vec![4]), (3, vec![4]), (4, vec![5]), (5, vec![])]
            .into_iter()
            .collect();
    assert!(!walk_reports_cycle(1, &graph));
    let mut cyclic = graph.clone();
    cyclic.insert(5, vec![3, 1]);
    assert!(walk_reports_cycle(1, &cyclic));
    // A cycle that does not pass through the root is no cycle for it.
    let mut side = graph.clone();
    side.insert(5, vec![4]);
    assert!(!walk_reports_cycle(1, &side));
}
