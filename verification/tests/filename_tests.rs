use budgettool_api::error::AppError;
use budgettool_api::filename::{file_extension, normalize_journal_name, sanitize_filename};

#[test]
fn filename_sanitize_normal_filename() {
    assert_eq!(
        sanitize_filename("transactions.csv"),
        Some("transactions.csv".into())
    );
}

#[test]
fn filename_sanitize_strips_path_separators() {
    assert_eq!(sanitize_filename("../../etc/passwd"), Some("passwd".into()));
    assert_eq!(
        sanitize_filename("foo/bar/baz.journal"),
        Some("baz.journal".into())
    );
}

#[test]
fn filename_sanitize_strips_windows_separators() {
    assert_eq!(
        sanitize_filename("C:\\Users\\bob\\file.csv"),
        Some("file.csv".into())
    );
}

#[test]
fn filename_sanitize_rejects_bare_dotdot() {
    assert_eq!(sanitize_filename(".."), None);
    assert_eq!(sanitize_filename("."), None);
}

#[test]
fn filename_sanitize_rejects_null_byte() {
    assert_eq!(sanitize_filename("file\0name.csv"), None);
}

#[test]
fn filename_sanitize_rejects_empty() {
    assert_eq!(sanitize_filename(""), None);
    assert_eq!(sanitize_filename("///"), None);
}

#[test]
fn normalize_adds_extension() {
    assert_eq!(normalize_journal_name("2026").unwrap(), "2026.journal");
}

#[test]
fn normalize_keeps_journal_extension() {
    assert_eq!(
        normalize_journal_name("2026.journal").unwrap(),
        "2026.journal"
    );
}

#[test]
fn normalize_rejects_other_extensions() {
    assert!(matches!(
        normalize_journal_name("foo.csv"),
        Err(AppError::BadRequest(_))
    ));
}

#[test]
fn normalize_rejects_empty() {
    assert!(matches!(
        normalize_journal_name(""),
        Err(AppError::BadRequest(_))
    ));
    assert!(matches!(
        normalize_journal_name("   "),
        Err(AppError::BadRequest(_))
    ));
}

#[test]
fn filename_extension_detection() {
    assert_eq!(file_extension("foo.csv"), Some("csv"));
    assert_eq!(file_extension("foo.journal"), Some("journal"));
    assert_eq!(file_extension("foo.rules"), Some("rules"));
    assert_eq!(file_extension("noext"), None);
    assert_eq!(file_extension(".hidden"), None);
}

#[test]
fn files_sanitize_normal_filename() {
    assert_eq!(
        sanitize_filename("transactions.csv"),
        Some("transactions.csv".into())
    );
}

#[test]
fn files_sanitize_strips_path_separators() {
    assert_eq!(sanitize_filename("../../etc/passwd"), Some("passwd".into()));
    assert_eq!(
        sanitize_filename("foo/bar/baz.journal"),
        Some("baz.journal".into())
    );
}

#[test]
fn files_sanitize_strips_windows_separators() {
    assert_eq!(
        sanitize_filename("C:\\Users\\bob\\file.csv"),
        Some("file.csv".into())
    );
}

#[test]
fn files_sanitize_rejects_bare_dotdot() {
    assert_eq!(sanitize_filename(".."), None);
    assert_eq!(sanitize_filename("."), None);
}

#[test]
fn files_sanitize_rejects_null_byte() {
    assert_eq!(sanitize_filename("file\0name.csv"), None);
}

#[test]
fn files_sanitize_rejects_empty() {
    assert_eq!(sanitize_filename(""), None);
    assert_eq!(sanitize_filename("///"), None);
}

#[test]
fn files_extension_detection() {
    assert_eq!(file_extension("foo.csv"), Some("csv"));
    assert_eq!(file_extension("foo.journal"), Some("journal"));
    assert_eq!(file_extension("foo.rules"), Some("rules"));
    assert_eq!(file_extension("noext"), None);
    assert_eq!(file_extension(".hidden"), None);
}

// Further cases.

#[test]
fn sanitize_is_idempotent_on_examples() {
    for name in ["a/b/c.csv", "..\\x.journal", "dir/", "x//y//"] {
        let once = sanitize_filename(name).unwrap();
        assert_eq!(sanitize_filename(&once), Some(once.clone()));
        assert!(!once.contains('/') && !once.contains('\\'));
    }
}

#[test]
fn sanitize_takes_last_nonempty_segment() {
    assert_eq!(sanitize_filename("dir/"), Some("dir".into()));
    assert_eq!(sanitize_filename("a\\b/"), Some("b".into()));
    assert_eq!(sanitize_filename("a/../"), None);
}

#[test]
fn extension_edge_cases() {
    assert_eq!(file_extension("a."), None);
    assert_eq!(file_extension("a.b.c"), Some("c"));
    assert_eq!(file_extension("..x"), Some("x"));
}

#[test]
fn normalize_trims_and_reports_extension() {
    assert_eq!(normalize_journal_name("  2027  ").unwrap(), "2027.journal");
    match normalize_journal_name("foo.csv") {
        Err(AppError::BadRequest(m)) => assert_eq!(
            m,
            "expected a .journal name but got '.csv'; omit the extension or use '.journal'"
        ),
        other => panic!("unexpected {other:?}"),
    }
    match normalize_journal_name(" ") {
        Err(AppError::BadRequest(m)) => assert_eq!(m, "journal name cannot be empty"),
        other => panic!("unexpected {other:?}"),
    }
}

#[test]
fn normalize_is_idempotent_on_examples() {
    for name in ["2026", " a.journal ", "x.y.journal"] {
        let once = normalize_journal_name(name).unwrap();
        assert_eq!(normalize_journal_name(&once).unwrap(), once);
    }
}
