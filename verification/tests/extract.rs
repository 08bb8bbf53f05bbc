use lisplens::config::resolve as resolve_config;
use lisplens::extract::{finish_extract, plan_extract, plan_extract_all, ExtractError};
use lisplens::hash::anchor_hash;
use lisplens::reader::Dialect;

/// Anchor `line:hash` for the form whose verbatim text is `form` at `line`.
fn anchor_for(form: &str, line: u32) -> String {
    format!("{line}:{}", anchor_hash(form.as_bytes()))
}

/// What extracting writes over `source`.
fn extract_in(
    source: &str,
    anchor: &str,
    name: &str,
    params: &[String],
    count: usize,
    kind: Option<&str>,
    dialect: Dialect,
) -> Result<String, ExtractError> {
    let plan = plan_extract(source, anchor, name, params, count, kind, dialect)?;
    let config = resolve_config(&plan.content, &[], &[]);
    Ok(finish_extract(&plan, dialect, &config))
}

#[test]
fn extract_expression_with_a_param() {
    let src = "(defun foo (x)\n  (message \"hi\")\n  (* (+ x 1) 2))\n";
    let a = anchor_for("(* (+ x 1) 2)", 3);
    let r = extract_in(src, &a, "compute", &["x".into()], 1, None, Dialect::EmacsLisp).unwrap();
    assert!(r.starts_with("(defun compute (x) (* (+ x 1) 2))\n\n"), "{r}");
    assert!(r.contains("  (compute x))"), "{r}");
}

#[test]
fn extract_niladic_and_scheme_and_clojure() {
    let r1 = extract_in(
        "(defun foo ()\n  (side-effect)\n  (bar))\n",
        &anchor_for("(side-effect)", 2),
        "act",
        &[],
        1,
        None,
        Dialect::EmacsLisp,
    )
    .unwrap();
    assert!(r1.starts_with("(defun act () (side-effect))\n\n"), "{r1}");
    assert!(r1.contains("  (act)\n"), "{r1}");

    let r2 = extract_in(
        "(define (f x)\n  (+ x 1))\n",
        &anchor_for("(+ x 1)", 2),
        "g",
        &["x".into()],
        1,
        None,
        Dialect::Scheme,
    )
    .unwrap();
    assert!(r2.starts_with("(define (g x) (+ x 1))\n\n"));

    let r3 = extract_in(
        "(defn f [x] (+ x 1))\n",
        &anchor_for("(+ x 1)", 1),
        "g",
        &["x".into()],
        1,
        None,
        Dialect::Clojure,
    )
    .unwrap();
    assert!(r3.contains("(defn g [x] (+ x 1))"));
}

#[test]
fn extract_rejects_bad_anchor_missing_and_unsupported_dialect() {
    let src = "(defun foo (x) (g x))\n";
    assert!(matches!(
        extract_in(src, "nope", "h", &[], 1, None, Dialect::EmacsLisp),
        Err(ExtractError::BadAnchor(_))
    ));
    assert!(matches!(
        extract_in(src, "1:dead", "h", &[], 1, None, Dialect::EmacsLisp),
        Err(ExtractError::AnchorNotFound(_))
    ));
    let a = anchor_for("(+ x 1)", 1);
    assert!(matches!(
        extract_in("(fn [x] (+ x 1))\n", &a, "g", &["x".into()], 1, None, Dialect::Fennel),
        Err(ExtractError::UnsupportedDialect(_))
    ));
}

#[test]
fn extract_block_of_siblings_in_a_body() {
    let src = "(defun main ()\n  (foo)\n  (bar)\n  (baz))\n";
    let a = anchor_for("(foo)", 2);
    let r = extract_in(src, &a, "foo-bar", &[], 2, None, Dialect::EmacsLisp).unwrap();
    assert_eq!(r, "(defun foo-bar ()\n  (foo)\n  (bar))\n\n(defun main ()\n  (foo-bar)\n  (baz))\n");
}

#[test]
fn extract_block_top_level_run() {
    let a = anchor_for("(foo)", 1);
    let r = extract_in("(foo)\n(bar)\n(baz)\n", &a, "setup", &[], 2, None, Dialect::EmacsLisp).unwrap();
    assert!(r.starts_with("(defun setup ()"), "{r}");
    assert!(r.contains("(setup)"), "{r}");
    assert!(r.contains("(baz)"), "{r}");
    assert_eq!(r.matches("(foo)").count(), 1, "{r}");
    assert_eq!(r.matches("(bar)").count(), 1, "{r}");
}

#[test]
fn extract_block_count_one_equals_single_form() {
    let src = "(defun foo (x)\n  (message \"hi\")\n  (* (+ x 1) 2))\n";
    let a = anchor_for("(* (+ x 1) 2)", 3);
    let one = extract_in(src, &a, "compute", &["x".into()], 1, None, Dialect::EmacsLisp).unwrap();
    let block = extract_in(src, &a, "compute", &["x".into()], 1, None, Dialect::EmacsLisp).unwrap();
    assert_eq!(one, block);
}

#[test]
fn extract_block_rejects_run_past_siblings_and_zero_count() {
    let src = "(defun main ()\n  (foo)\n  (bar))\n";
    let a = anchor_for("(bar)", 3);
    assert!(matches!(
        extract_in(src, &a, "h", &[], 2, None, Dialect::EmacsLisp),
        Err(ExtractError::RunExceedsSiblings { asked: 2, available: 1 })
    ));
    assert!(matches!(
        extract_in(src, &anchor_for("(foo)", 2), "h", &[], 0, None, Dialect::EmacsLisp),
        Err(ExtractError::RunExceedsSiblings { asked: 0, .. })
    ));
}

#[test]
fn extract_kind_overrides_head_within_each_shape_family() {
    let r1 = extract_in(
        "(defun foo (x)\n  (* x 2))\n",
        &anchor_for("(* x 2)", 2),
        "dbl",
        &["x".into()],
        1,
        Some("defsubst"),
        Dialect::EmacsLisp,
    )
    .unwrap();
    assert!(r1.starts_with("(defsubst dbl (x) (* x 2))\n\n"), "{r1}");
    let r2 = extract_in(
        "(define (f x)\n  (+ x 1))\n",
        &anchor_for("(+ x 1)", 2),
        "g",
        &["x".into()],
        1,
        Some("define-inline"),
        Dialect::Scheme,
    )
    .unwrap();
    assert!(r2.starts_with("(define-inline (g x) (+ x 1))\n\n"), "{r2}");
    let r3 = extract_in(
        "(defn f [x] (+ x 1))\n",
        &anchor_for("(+ x 1)", 1),
        "g",
        &["x".into()],
        1,
        Some("defn-"),
        Dialect::Clojure,
    )
    .unwrap();
    assert!(r3.contains("(defn- g [x] (+ x 1))"), "{r3}");
}

#[test]
fn extract_kind_does_not_unlock_unsupported_dialects() {
    let a = anchor_for("(+ x 1)", 1);
    assert!(matches!(
        extract_in("(fn [x] (+ x 1))\n", &a, "g", &["x".into()], 1, Some("fn"), Dialect::Fennel),
        Err(ExtractError::UnsupportedDialect(_))
    ));
}

#[test]
fn extract_names_the_unsupported_dialect_by_its_variant() {
    let a = anchor_for("(+ x 1)", 1);
    match extract_in("(fn [x] (+ x 1))\n", &a, "g", &[], 1, None, Dialect::Fennel) {
        Err(ExtractError::UnsupportedDialect(d)) => assert_eq!(d, "Fennel"),
        other => panic!("{other:?}"),
    }
}

#[test]
fn extract_plan_reports_where_the_new_texts_land() {
    let src = "(defun foo (x)\n  (* x 2))\n";
    let plan = plan_extract(src, &anchor_for("(* x 2)", 2), "dbl", &["x".into()], 1, None, Dialect::EmacsLisp)
        .unwrap();
    assert_eq!(plan.sites, 1);
    assert_eq!(plan.content, "(defun dbl (x) (* x 2))\n\n(defun foo (x)\n  (dbl x))\n");
    assert_eq!(plan.spans.len(), 2);
    assert_eq!(&plan.content[plan.spans[0].clone()], "(defun dbl (x) (* x 2))\n\n");
    assert_eq!(&plan.content[plan.spans[1].clone()], "(dbl x)");
}

/// What extracting every occurrence writes over `source`, with the number
/// of sites replaced.
fn extract_all_in(
    source: &str,
    anchor: &str,
    name: &str,
    count: usize,
    kind: Option<&str>,
) -> (usize, String) {
    let plan = plan_extract_all(source, anchor, name, &[], count, kind, Dialect::EmacsLisp).unwrap();
    let config = resolve_config(&plan.content, &[], &[]);
    (plan.sites, finish_extract(&plan, Dialect::EmacsLisp, &config))
}

#[test]
fn extract_multi_site_replaces_every_equal_occurrence() {
    let (sites, r) = extract_all_in(
        "(defun a ()\n  (log)\n  (work))\n\n(defun b ()\n  (when x (log)))\n",
        &anchor_for("(log)", 2),
        "record",
        1,
        None,
    );
    assert_eq!(sites, 2);
    assert!(r.starts_with("(defun record () (log))\n\n"), "{r}");
    assert_eq!(r.matches("(record)").count(), 2, "{r}");
    assert_eq!(r.matches("(log)").count(), 1, "{r}");
    assert!(r.contains("(when x (record))"), "{r}");
}

#[test]
fn extract_multi_site_of_a_block() {
    let (sites, r) = extract_all_in(
        "(defun a ()\n  (foo)\n  (bar)\n  (rest-a))\n\n(defun b ()\n  (foo)\n  (bar)\n  (rest-b))\n",
        &anchor_for("(foo)", 2),
        "setup",
        2,
        None,
    );
    assert_eq!(sites, 2);
    assert!(r.starts_with("(defun setup ()\n  (foo)\n  (bar))\n\n"), "{r}");
    assert_eq!(r.matches("(setup)").count(), 2, "{r}");
    assert_eq!(r.matches("(foo)").count(), 1, "{r}");
    assert_eq!(r.matches("(bar)").count(), 1, "{r}");
    assert!(r.contains("(rest-a)") && r.contains("(rest-b)"), "{r}");
}

#[test]
fn extract_multi_site_composes_with_kind() {
    let (sites, r) = extract_all_in(
        "(defun a () (ping))\n(defun b () (ping))\n",
        &anchor_for("(ping)", 1),
        "p",
        1,
        Some("defsubst"),
    );
    assert_eq!(sites, 2);
    assert!(r.starts_with("(defsubst p () (ping))\n\n"), "{r}");
    assert_eq!(r.matches("(p)").count(), 2, "{r}");
}

#[test]
fn extract_multi_site_single_occurrence_degrades() {
    let (sites, r) = extract_all_in("(defun a () (only))\n", &anchor_for("(only)", 1), "h", 1, None);
    assert_eq!(sites, 1);
    assert!(r.starts_with("(defun h () (only))\n\n"), "{r}");
    assert!(r.contains("(defun a () (h))"), "{r}");
}

#[test]
fn extract_multi_site_block_overlap_keeps_outermost() {
    let (sites, r) = extract_all_in(
        "(defun a ()\n  (tick)\n  (tick)\n  (tick))\n",
        &anchor_for("(tick)", 2),
        "twice",
        2,
        None,
    );
    assert_eq!(sites, 1);
    assert!(r.starts_with("(defun twice ()\n  (tick)\n  (tick))\n\n"), "{r}");
    assert!(r.contains("(defun a ()\n  (twice)\n  (tick))"), "{r}");
}

#[test]
fn extract_multi_site_keeps_an_outer_occurrence_over_a_nested_one() {
    let (sites, r) = extract_all_in(
        "(defun a () (f (g)))\n(defun b () (f (g)))\n",
        &anchor_for("(f (g))", 1),
        "h",
        1,
        None,
    );
    assert_eq!(sites, 2);
    assert!(r.contains("(defun a () (h))"), "{r}");
    assert!(r.contains("(defun b () (h))"), "{r}");
}
