use lisplens::config::resolve as resolve_config;
use lisplens::refactor::{finish_inline, finish_rename, plan_inline, plan_rename, InlineError, RenameError};
use lisplens::reader::Dialect;

/// What renaming writes over `source`.
fn rename_in(source: &str, from: &str, to: &str, dialect: Dialect) -> Result<(usize, String), RenameError> {
    let plan = plan_rename(source, from, to, dialect)?;
    let config = resolve_config(&plan.content, &[], &[]);
    Ok((plan.renamed, finish_rename(&plan, dialect, &config)))
}

#[test]
fn renames_symbol_exactly_leaving_siblings_and_text() {
    let (renamed, result) = rename_in(
        "(defun foo (x)          ; foo comment\n  (foo-bar (foo x) \"foo\"))\n",
        "foo",
        "qux",
        Dialect::EmacsLisp,
    )
    .unwrap();
    assert_eq!(renamed, 2);
    assert!(result.contains("(defun qux (x)"));
    assert!(result.contains("(qux x)"));
    assert!(result.contains("foo-bar"));
    assert!(result.contains("\"foo\""));
    assert!(result.contains("; foo comment"));
    assert!(!result.contains("(foo "));
}

#[test]
fn renames_across_dialects_including_quoted_data() {
    let (renamed, result) =
        rename_in("(define (f x xs)\n  (cons 'x (g x xs)))\n", "x", "y", Dialect::Scheme).unwrap();
    assert_eq!(renamed, 3);
    assert_eq!(result, "(define (f y xs)\n  (cons 'y (g y xs)))\n");
}

#[test]
fn missing_symbol_is_reported_not_a_silent_noop() {
    let err = rename_in("(defun foo () 1)\n", "nope", "x", Dialect::EmacsLisp).unwrap_err();
    assert!(matches!(err, RenameError::NoOccurrences(_)));
}

#[test]
fn same_from_and_to_is_refused() {
    assert!(matches!(
        rename_in("(defun foo () 1)\n", "foo", "foo", Dialect::EmacsLisp),
        Err(RenameError::Unchanged)
    ));
}

#[test]
fn a_rename_that_changes_width_realigns_the_touched_form() {
    let src = "(defun f ()\n  (foo a\n       b))\n(x)\n";
    let (_, result) = rename_in(src, "foo", "longer", Dialect::EmacsLisp).unwrap();
    assert_eq!(result, "(defun f ()\n  (longer a\n          b))\n(x)\n");
}

/// What inlining writes over `source`.
fn inline_in(source: &str, name: &str, dialect: Dialect) -> Result<(usize, String), InlineError> {
    let plan = plan_inline(source, name, dialect)?;
    let config = resolve_config(&plan.content, &[], &[]);
    Ok((plan.inlined, finish_inline(&plan, dialect, &config)))
}

#[test]
fn inlines_a_niladic_defsubst_into_call_sites() {
    let (n, result) = inline_in(
        "(defsubst in-string-p () (nth 3 (syntax-ppss)))\n(when (in-string-p)\n  (do-thing))\n",
        "in-string-p",
        Dialect::EmacsLisp,
    )
    .unwrap();
    assert_eq!(n, 1);
    assert!(result.contains("(when (nth 3 (syntax-ppss))"), "{result}");
    assert!(result.contains("(defsubst in-string-p ()"));
}

#[test]
fn inlines_params_with_a_let_preserving_evaluation() {
    let (n, result) = inline_in("(defun sq (n) (* n n))\n(list (sq (pop xs)))\n", "sq", Dialect::EmacsLisp).unwrap();
    assert_eq!(n, 1);
    assert!(result.contains("(let ((n (pop xs))) (* n n))"), "{result}");
}

#[test]
fn inlines_a_scheme_define() {
    let (n, result) = inline_in("(define (inc x) (+ x 1))\n(display (inc 41))\n", "inc", Dialect::Scheme).unwrap();
    assert_eq!(n, 1);
    assert!(result.contains("(display (let ((x 41)) (+ x 1)))"));
}

#[test]
fn refuses_macros_recursion_arity_and_missing() {
    assert!(matches!(
        inline_in("(defmacro mac (x) `(+ ,x 1))\n(mac 2)\n", "mac", Dialect::EmacsLisp),
        Err(InlineError::NotInlinable(_))
    ));
    assert!(matches!(
        inline_in("(defun rec (n) (rec (1- n)))\n(rec 3)\n", "rec", Dialect::EmacsLisp),
        Err(InlineError::NotInlinable(_))
    ));
    assert!(matches!(
        inline_in("(defun f (x) (+ x 1))\n(f 1 2)\n", "f", Dialect::EmacsLisp),
        Err(InlineError::ArityMismatch { expected: 1, found: 2, .. })
    ));
    assert!(matches!(
        inline_in("(defun f (x) x)\n(g 1)\n", "nope", Dialect::EmacsLisp),
        Err(InlineError::NotFound(_))
    ));
    assert!(matches!(
        inline_in("(defun f (a &rest r) a)\n(f 1 2)\n", "f", Dialect::EmacsLisp),
        Err(InlineError::NotInlinable(_))
    ));
}

#[test]
fn drops_a_docstring_when_inlining() {
    let (_, result) = inline_in("(defun f () \"doc\" 42)\n(list (f))\n", "f", Dialect::EmacsLisp).unwrap();
    assert!(result.contains("(list 42)"), "{result}");
    assert!(!result.contains("(list \"doc\""), "{result}");
}

#[test]
fn inline_reasons_and_ambiguity() {
    match inline_in("(defvar v 1)\n(v)\n", "v", Dialect::EmacsLisp) {
        Err(InlineError::NotInlinable(m)) => assert_eq!(m, "`v` is a variable, not a function"),
        other => panic!("{other:?}"),
    }
    match inline_in("(defun f (a &optional b) a)\n(f 1)\n", "f", Dialect::EmacsLisp) {
        Err(InlineError::NotInlinable(m)) => {
            assert_eq!(m, "argument list has `&optional` (only required parameters inline)")
        }
        other => panic!("{other:?}"),
    }
    assert!(matches!(
        inline_in("(defun f () 1)\n(defun f () 2)\n(f)\n", "f", Dialect::EmacsLisp),
        Err(InlineError::Ambiguous(_))
    ));
    assert!(matches!(
        inline_in("(defun f () 1)\n", "f", Dialect::EmacsLisp),
        Err(InlineError::NoCallSites(_))
    ));
    match inline_in("(defun f (x) x)\n(list\n (f 1 2))\n", "f", Dialect::EmacsLisp) {
        Err(InlineError::ArityMismatch { expected: 1, found: 2, line: 3 }) => {}
        other => panic!("{other:?}"),
    }
}

#[test]
fn quoted_calls_stay_and_nested_calls_expand_outermost_first() {
    let (n, result) = inline_in(
        "(defun f (x) (g x))\n(list '(f 1) (f (f 2)))\n",
        "f",
        Dialect::EmacsLisp,
    )
    .unwrap();
    assert_eq!(n, 1);
    assert!(result.contains("'(f 1)"), "{result}");
    assert!(result.contains("(let ((x (f 2))) (g x))"), "{result}");
}

#[test]
fn a_multi_form_niladic_body_goes_in_a_progn() {
    let (_, result) = inline_in("(defun f () (a) (b))\n(list (f))\n", "f", Dialect::EmacsLisp).unwrap();
    assert!(result.contains("(list (progn (a) (b)))"), "{result}");
}
