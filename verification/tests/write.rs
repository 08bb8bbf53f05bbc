use lisplens::hash::file_hash;
use lisplens::reader::Dialect;
use lisplens::write::{check_write, WriteError};

#[test]
fn check_write_reports_drift_with_both_hashes() {
    let current = "(a)\n";
    let actual = file_hash(current.as_bytes());
    match check_write(current, "0000", "(b)\n", Dialect::EmacsLisp) {
        Err(WriteError::Drift { expected, actual: got }) => {
            assert_eq!(expected, "0000");
            assert_eq!(got, actual);
        }
        other => panic!("expected a drift, got {other:?}"),
    }
}

#[test]
fn check_write_refuses_new_parse_errors_only() {
    let current = "(a)\n";
    let h = file_hash(current.as_bytes());
    assert!(check_write(current, &h, "(b c)\n", Dialect::EmacsLisp).is_ok());
    match check_write(current, &h, "(b c\n", Dialect::EmacsLisp) {
        Err(WriteError::NewParseErrors { introduced }) => assert_eq!(introduced.len(), 1),
        other => panic!("expected new parse errors, got {other:?}"),
    }
    // An error already present is no new one.
    let broken = "(a\n";
    let hb = file_hash(broken.as_bytes());
    assert!(check_write(broken, &hb, "(a b\n", Dialect::EmacsLisp).is_ok());
}

#[test]
fn refuses_a_drifted_file() {
    let stale = file_hash("(f 1)\n".as_bytes());
    let err = check_write("(f 999)\n", &stale, "(f 2)\n", Dialect::Scheme).unwrap_err();
    assert!(matches!(err, WriteError::Drift { .. }));
}

#[test]
fn refuses_an_edit_that_introduces_parse_errors() {
    let expected = file_hash("(f 1)\n".as_bytes());
    let err = check_write("(f 1)\n", &expected, "(f 1\n", Dialect::Scheme).unwrap_err();
    assert!(matches!(err, WriteError::NewParseErrors { introduced } if !introduced.is_empty()));
}

#[test]
fn allows_an_edit_that_repairs_a_broken_file() {
    let expected = file_hash("(f 1\n".as_bytes());
    check_write("(f 1\n", &expected, "(f 1)\n", Dialect::Scheme).unwrap();
}

#[test]
fn allows_an_edit_that_only_shifts_an_existing_error() {
    let expected = file_hash("(f 1\n".as_bytes());
    check_write("(f 1\n", &expected, "(g 2)\n(f 1\n", Dialect::Scheme).unwrap();
}
