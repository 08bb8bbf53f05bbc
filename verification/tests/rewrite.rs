use lisplens::config::resolve as resolve_config;
use lisplens::hash::file_hash;
use lisplens::reader::Dialect;
use lisplens::rewrite::{finish_rewrite, parse_request, plan_rewrite, RewriteError};

fn spec(pattern: &str, template: &str) -> String {
    format!("pattern <<P\n{pattern}\nP\ntemplate <<T\n{template}\nT\n")
}

/// What a rewrite of `source` by the request `input` writes, with how many
/// sites it rewrote.
fn rewrite_in(source: &str, input: &str, dialect: Dialect) -> Result<(usize, String), RewriteError> {
    let request = parse_request(input).map_err(RewriteError::Spec)?;
    let plan = plan_rewrite(source, &request, dialect)?;
    let config = resolve_config(&plan.content, &[], &[]);
    Ok((plan.rewritten, finish_rewrite(&plan, dialect, &config)))
}

fn spec_error(r: Result<(usize, String), RewriteError>) -> String {
    match r {
        Err(RewriteError::Spec(m)) => m,
        other => panic!("expected a request error, got {other:?}"),
    }
}

#[test]
fn rewrite_guard_removal_all_sites() {
    let (n, r) = rewrite_in(
        "(defun a ()\n  (when flag\n    (foo)))\n(defun b () (when q (bar)))\n",
        &spec("(when $flag $body)", "$body"),
        Dialect::EmacsLisp,
    )
    .unwrap();
    assert_eq!(n, 2);
    assert!(r.contains("(defun a ()\n  (foo))"), "{r}");
    assert!(r.contains("(defun b () (bar))"), "{r}");
}

#[test]
fn rewrite_if_to_when_and_progn_unwrap() {
    let (_, r1) = rewrite_in("(setq x (if c a nil))\n", &spec("(if $c $a nil)", "(when $c $a)"), Dialect::EmacsLisp)
        .unwrap();
    assert_eq!(r1, "(setq x (when c a))\n");

    // Sequence metavariable unwraps a progn, preserving the forms.
    let (n, r2) =
        rewrite_in("(progn\n  (a)\n  (b))\n", &spec("(progn $body...)", "$body..."), Dialect::EmacsLisp).unwrap();
    assert_eq!(n, 1);
    assert_eq!(r2, "(a)\n(b)\n");
}

#[test]
fn rewrite_class_filter_and_non_linear() {
    // `:atom` folds a literal/symbol but not a side-effecting call.
    let (n, r1) = rewrite_in(
        "(list (double 100) (double (getnum)) (double x))\n",
        &spec("(double $n:atom)", "(* 2 $n)"),
        Dialect::EmacsLisp,
    )
    .unwrap();
    assert_eq!(n, 2);
    assert_eq!(r1, "(list (* 2 100) (double (getnum)) (* 2 x))\n");
    // Non-linear: `(eq $x $x)` matches only equal operands.
    let (_, r2) = rewrite_in("(list (eq a a) (eq a b))\n", &spec("(eq $x $x)", "t"), Dialect::EmacsLisp).unwrap();
    assert_eq!(r2, "(list t (eq a b))\n");
}

#[test]
fn rewrite_empty_template_deletes_and_wildcard_matches_any() {
    // Empty template = deletion; `$_` matches (and discards) any argument.
    let (_, r) = rewrite_in("(progn (log x) (real))\n", &spec("(log $_)", ""), Dialect::EmacsLisp).unwrap();
    assert_eq!(r, "(progn  (real))\n");
}

#[test]
fn rewrite_zero_matches_is_success() {
    let (n, r) = rewrite_in("(foo)\n", &spec("(nope $x)", "$x"), Dialect::EmacsLisp).unwrap();
    assert_eq!(n, 0);
    assert_eq!(r, "(foo)\n");
}

#[test]
fn rewrite_across_dialects_matches_delimiter() {
    // Clojure `[]` is a distinct delimiter — a `()` pattern must not match it.
    let (n, r) = rewrite_in("(foo (a b) [a b])\n", &spec("(a b)", "AB"), Dialect::Clojure).unwrap();
    assert_eq!(n, 1);
    assert_eq!(r, "(foo AB [a b])\n");
}

#[test]
fn rewrite_rejects_bad_specs() {
    let src = "(foo bar)\n";
    // unknown class
    assert!(matches!(rewrite_in(src, &spec("(foo $x:nope)", "$x"), Dialect::EmacsLisp), Err(RewriteError::Spec(_))));
    // unbound template metavariable
    assert!(matches!(rewrite_in(src, &spec("(foo $x)", "$y"), Dialect::EmacsLisp), Err(RewriteError::Spec(_))));
    // arity mismatch (single in pattern, sequence in template)
    assert!(matches!(rewrite_in(src, &spec("(foo $x)", "$x..."), Dialect::EmacsLisp), Err(RewriteError::Spec(_))));
    // multi-form pattern
    assert!(matches!(rewrite_in(src, &spec("(a) (b)", "x"), Dialect::EmacsLisp), Err(RewriteError::Spec(_))));
}

#[test]
fn rewrite_drift_gate_when_hash_given() {
    let good = file_hash("(foo)\n".as_bytes());
    let s = format!("@ {good}\n{}", spec("(foo)", "(bar)"));
    let (_, r) = rewrite_in("(foo)\n", &s, Dialect::EmacsLisp).unwrap();
    assert_eq!(r, "(bar)\n");
    // A stale hash is refused.
    let stale = file_hash("different".as_bytes());
    let s2 = format!("@ {stale}\n{}", spec("(bar)", "(baz)"));
    assert!(matches!(rewrite_in(&r, &s2, Dialect::EmacsLisp), Err(RewriteError::Drift { .. })));
}

#[test]
fn request_error_messages_are_exact() {
    let src = "(foo bar)\n";
    assert_eq!(
        spec_error(rewrite_in(src, &spec("(foo $x:nope)", "$x"), Dialect::EmacsLisp)),
        "unknown metavariable class `:nope`"
    );
    assert_eq!(
        spec_error(rewrite_in(src, &spec("(foo $x)", "$y"), Dialect::EmacsLisp)),
        "template metavariable `$y` is not bound by the pattern"
    );
    assert_eq!(
        spec_error(rewrite_in(src, &spec("(foo $x)", "$x..."), Dialect::EmacsLisp)),
        "metavariable `$x` arity mismatch between pattern and template"
    );
    assert_eq!(
        spec_error(rewrite_in(src, &spec("(foo $x)", "(a $_)"), Dialect::EmacsLisp)),
        "`$_` is not allowed in a template"
    );
    assert_eq!(spec_error(rewrite_in(src, &spec("(a) (b)", "x"), Dialect::EmacsLisp)), "pattern must be a single form");
    assert_eq!(spec_error(rewrite_in(src, &spec("", "x"), Dialect::EmacsLisp)), "pattern is empty");
    assert_eq!(spec_error(rewrite_in(src, &spec("(a", "x"), Dialect::EmacsLisp)), "pattern does not parse");
    assert_eq!(spec_error(rewrite_in(src, &spec("(a)", "(x"), Dialect::EmacsLisp)), "template does not parse");
    // A run metavariable before the end of a list never matches.
    assert_eq!(rewrite_in(src, &spec("(foo $xs... $y)", "x"), Dialect::EmacsLisp).unwrap(), (0, src.to_string()));
}

#[test]
fn request_blocks_are_read_exactly() {
    let r = parse_request("\n@  abc  \npattern <<END\n(a\n b)\nEND\n\ntemplate << T \nx\nT\n").unwrap();
    assert_eq!(r.hash.as_deref(), Some("abc"));
    assert_eq!(r.pattern_text, "(a\n b)");
    assert_eq!(r.template_text, "x");
    assert_eq!(parse_request("pattern <<P\n(a)\nP\n").err().unwrap(), "missing `template <<TAG` block");
    assert_eq!(parse_request("patern <<P\n(a)\nP\n").err().unwrap(), "expected `pattern <<TAG`, got `patern <<P`");
    assert_eq!(parse_request("pattern <<P\n(a)\n").err().unwrap(), "unterminated heredoc `P`");
    assert!(parse_request("").is_err());
}

#[test]
fn separate_ellipsis_escapes_and_empty_runs() {
    // `$x ...` captures a run like `$x...` does (here an empty one too).
    let (n, r) = rewrite_in("(f)\n(f 1 2)\n", &spec("(f $xs ...)", "(g)"), Dialect::EmacsLisp).unwrap();
    assert_eq!(n, 2);
    assert_eq!(r, "(g)\n(g)\n");
    // Its capture is a run, so a template using it as a single form fails.
    assert_eq!(
        spec_error(rewrite_in("(f 1)\n", &spec("(f $xs ...)", "(g $xs)"), Dialect::EmacsLisp)),
        "metavariable `$xs` arity mismatch"
    );
    // An empty run expands to nothing.
    let (_, r) = rewrite_in("(f)\n", &spec("(f $xs...)", "(g $xs...)"), Dialect::EmacsLisp).unwrap();
    assert_eq!(r, "(g )\n");
    // `$$x` is the literal symbol `$x`, in a pattern and in a template.
    let (n, r) = rewrite_in("(p $x y)\n", &spec("(p $$x $v)", "(q $$y $v)"), Dialect::EmacsLisp).unwrap();
    assert_eq!(n, 1);
    assert_eq!(r, "(q $y y)\n");
}

#[test]
fn classes_sym_list_and_lit() {
    let (n, r) = rewrite_in("(h a (b) 1 'c)\n", &spec("(h $s:sym $l:list $n:lit $q:lit)", "[$q $n $l $s]"), Dialect::EmacsLisp)
        .unwrap();
    assert_eq!(n, 1);
    assert_eq!(r, "['c 1 (b) a]\n");
    let (n, _) = rewrite_in("(h (a))\n", &spec("(h $s:sym)", "x"), Dialect::EmacsLisp).unwrap();
    assert_eq!(n, 0);
}

#[test]
fn nested_matches_keep_only_the_outermost() {
    let (n, r) = rewrite_in("(w (w x))\n", &spec("(w $a)", "$a"), Dialect::EmacsLisp).unwrap();
    assert_eq!(n, 1);
    assert_eq!(r, "(w x)\n");
}
