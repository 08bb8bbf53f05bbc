use lisplens::outline;
use lisplens::reader::Dialect;

#[test]
fn outlines_scheme_and_elisp_definitions() {
    let src = "(define (square x) (* x x))\n(defvar answer 42)\n(+ 1 2)\n";
    let entries = outline(src, Dialect::Scheme);
    assert_eq!(entries.len(), 2);
    assert_eq!(entries[0].kind, "define");
    assert_eq!(entries[0].name.as_deref(), Some("square"));
    assert_eq!(entries[1].kind, "defvar");
    assert_eq!(entries[1].name.as_deref(), Some("answer"));
}

#[test]
fn outline_lines_are_one_based_and_skip_non_definitions() {
    let src = "(+ 1 2)\n\n(defun f () 1)\n(defmacro m () nil)\n";
    let entries = outline(src, Dialect::EmacsLisp);
    assert_eq!(entries.len(), 2);
    assert_eq!(entries[0].line, 3);
    assert_eq!(entries[0].name.as_deref(), Some("f"));
    assert_eq!(entries[1].line, 4);
    assert_eq!(entries[1].kind, "defmacro");
}

#[test]
fn outline_entries_carry_the_anchor_hash_of_their_form() {
    let src = "(define (square x) (* x x))\n(defvar answer 42)\n";
    let entries = outline(src, Dialect::Scheme);
    assert_eq!(entries.len(), 2);
    assert_eq!(entries[0].hash, lisplens::hash::anchor_hash(b"(define (square x) (* x x))"));
    assert_eq!(entries[1].hash, lisplens::hash::anchor_hash(b"(defvar answer 42)"));
    assert_eq!(entries[1].line, 2);
}

#[test]
fn definitions_named_keeps_only_that_name_in_order() {
    let src = "(defun f () 1)\n(defvar g 2)\n(defun f () 3)\n";
    let hits = lisplens::outline::definitions_named(src, Dialect::EmacsLisp, "f");
    assert_eq!(hits.len(), 2);
    assert_eq!(hits[0].line, 1);
    assert_eq!(hits[1].line, 3);
    assert!(lisplens::outline::definitions_named(src, Dialect::EmacsLisp, "h").is_empty());
}

#[test]
fn lisp_extensions_are_recognized_and_others_are_not() {
    assert!(lisplens::outline::is_lisp_extension("el"));
    assert!(lisplens::outline::is_lisp_extension("SCM"));
    assert!(!lisplens::outline::is_lisp_extension("txt"));
}
