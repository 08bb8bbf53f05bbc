use lisplens::patch::{parse_line_patch, PatchError};


    #[test]
    fn parses_header_and_ops() {
        let patch = parse_line_patch("@ abc123\ndelete 3:9999\n").unwrap();
        assert_eq!(patch.file_hash, "abc123");
        assert_eq!(patch.ops.len(), 1);
    }

    #[test]
    fn missing_header_is_an_error() {
        assert_eq!(
            parse_line_patch("delete 1:aaaa\n"),
            Err(PatchError::MissingHeader)
        );
    }

use lisplens::config::resolve as resolve_config;
use lisplens::hash::{anchor_hash, file_hash};
use lisplens::patch::{
    finish_struct_plan, outcome_of, parse_struct_patch, plan_line_patch, plan_struct_patch,
    ApplyError,
};
use lisplens::reader::Dialect;

fn line_hash(content: &str) -> String {
    anchor_hash(content.as_bytes())
}

fn node_hash(text: &str) -> String {
    anchor_hash(text.as_bytes())
}

fn line_edit(source: &str, patch: &str) -> Result<String, ApplyError> {
    let patch = parse_line_patch(patch).unwrap();
    plan_line_patch(source, &patch)
}

/// What a Structural patch writes over `source`, with the config the file
/// would get from `dir_locals` and its own local variables.
fn struct_edit_in(
    source: &str,
    patch: &str,
    dialect: Dialect,
    file_name: &str,
    dir_locals: &[String],
) -> Result<String, ApplyError> {
    let patch = parse_struct_patch(patch).unwrap();
    let plan = plan_struct_patch(source, &patch, dialect)?;
    let config = resolve_config(&plan.content, &[], dir_locals);
    Ok(finish_struct_plan(&plan, dialect, &config, file_name))
}

fn struct_edit(source: &str, patch: &str, dialect: Dialect) -> Result<String, ApplyError> {
    struct_edit_in(source, patch, dialect, "a.scm", &[])
}

fn apply_struct(source: &str, op_line: &str, node_text: &str) -> String {
    let fh = file_hash(source.as_bytes());
    let h = node_hash(node_text);
    struct_edit(source, &format!("@ {fh}\n{op_line} 1:{h}\n"), Dialect::Scheme).unwrap()
}

#[test]
fn replace_substitutes_content_and_keeps_the_terminator() {
    let src = "(a)\n(b)\n(c)\n";
    let fh = file_hash(src.as_bytes());
    let h = line_hash("(b)");
    let out = line_edit(src, &format!("@ {fh}\nreplace 2:{h} <<END\n(B)\nEND\n")).unwrap();
    assert_eq!(out, "(a)\n(B)\n(c)\n");
    let outcome = outcome_of(src, &out, Dialect::Scheme);
    assert_eq!(outcome.new_file_hash, file_hash("(a)\n(B)\n(c)\n".as_bytes()));
}

#[test]
fn delete_removes_the_whole_line() {
    let src = "(a)\n(b)\n(c)\n";
    let fh = file_hash(src.as_bytes());
    let h = line_hash("(b)");
    assert_eq!(line_edit(src, &format!("@ {fh}\ndelete 2:{h}\n")).unwrap(), "(a)\n(c)\n");
}

#[test]
fn insert_after_adds_a_line() {
    let src = "(a)\n(c)\n";
    let fh = file_hash(src.as_bytes());
    let h = line_hash("(a)");
    let out = line_edit(src, &format!("@ {fh}\ninsert-after 1:{h} <<END\n(b)\nEND\n")).unwrap();
    assert_eq!(out, "(a)\n(b)\n(c)\n");
}

#[test]
fn a_wrong_line_hash_is_refused() {
    let src = "(a)\n(b)\n";
    let fh = file_hash(src.as_bytes());
    let err = line_edit(src, &format!("@ {fh}\ndelete 2:0000\n")).unwrap_err();
    assert!(matches!(err, ApplyError::AnchorMismatch { line: 2, .. }));
}

#[test]
fn a_drifted_file_is_refused() {
    let src = "(a)\n";
    assert!(matches!(
        line_edit(src, "@ deadbeef\ndelete 1:0000\n"),
        Err(ApplyError::Drift { .. })
    ));
}

#[test]
fn an_edit_that_unrecognizes_a_definition_warns() {
    let src = "(defun foo () 1)\n";
    let fh = file_hash(src.as_bytes());
    let h = line_hash("(defun foo () 1)");
    let out = line_edit(src, &format!("@ {fh}\nreplace 1:{h} <<END\n(defun)\nEND\n")).unwrap();
    let outcome = outcome_of(src, &out, Dialect::EmacsLisp);
    assert!(
        outcome.warnings.iter().any(|w| w.contains("foo")),
        "{:?}",
        outcome.warnings
    );
}

#[test]
fn struct_replace_swaps_a_definition_node() {
    let src = "(define x 1)\n(define y 2)\n";
    let fh = file_hash(src.as_bytes());
    let h = node_hash("(define y 2)");
    let out = struct_edit(
        src,
        &format!("@ {fh}\nreplace 2:{h} <<END\n(define y 22)\nEND\n"),
        Dialect::Scheme,
    )
    .unwrap();
    assert_eq!(out, "(define x 1)\n(define y 22)\n");
}

#[test]
fn struct_wrap_encloses_a_form() {
    let src = "body\n";
    let fh = file_hash(src.as_bytes());
    let h = node_hash("body");
    let out = struct_edit(src, &format!("@ {fh}\nwrap 1:{h} <<END\nwhen cond\nEND\n"), Dialect::Scheme)
        .unwrap();
    assert_eq!(out, "(when cond body)\n");
}

#[test]
fn struct_raise_replaces_the_parent_form() {
    assert_eq!(apply_struct("(when cond (do-thing))\n", "raise", "(do-thing)"), "(do-thing)\n");
}

#[test]
fn struct_splice_removes_inner_delimiters() {
    assert_eq!(apply_struct("(foo (bar baz) quux)\n", "splice", "(bar baz)"), "(foo bar baz quux)\n");
}

#[test]
fn struct_slurp_forward_swallows_the_next_sibling() {
    assert_eq!(apply_struct("(foo (bar) baz)\n", "slurp-fwd", "(bar)"), "(foo (bar baz))\n");
}

#[test]
fn struct_barf_forward_expels_the_last_element() {
    assert_eq!(apply_struct("(foo (bar baz))\n", "barf-fwd", "(bar baz)"), "(foo (bar) baz)\n");
}

#[test]
fn struct_split_divides_a_list() {
    let src = "(a b)\n";
    let fh = file_hash(src.as_bytes());
    let h = node_hash("(a b)");
    let out = struct_edit(src, &format!("@ {fh}\nsplit 1:{h} @0\n"), Dialect::Scheme).unwrap();
    assert_eq!(out, "(a) (b)\n");
}

#[test]
fn struct_join_merges_two_lists() {
    let src = "(a) (b)\n";
    let fh = file_hash(src.as_bytes());
    let h1 = node_hash("(a)");
    let h2 = node_hash("(b)");
    let out = struct_edit(src, &format!("@ {fh}\njoin 1:{h1} 1:{h2}\n"), Dialect::Scheme).unwrap();
    assert_eq!(out, "(a b)\n");
}

#[test]
fn struct_rename_replaces_occurrences_in_the_anchored_subtree() {
    let src = "(define (f x) (+ x x))\n";
    let fh = file_hash(src.as_bytes());
    let h = node_hash("(define (f x) (+ x x))");
    let out = struct_edit(src, &format!("@ {fh}\nrename 1:{h} x y\n"), Dialect::Scheme).unwrap();
    assert_eq!(out, "(define (f y) (+ y y))\n");
}

#[test]
fn struct_raise_of_a_top_level_node_is_refused() {
    let src = "(define x 1)\n";
    let fh = file_hash(src.as_bytes());
    let h = node_hash("(define x 1)");
    assert!(matches!(
        struct_edit(src, &format!("@ {fh}\nraise 1:{h}\n"), Dialect::Scheme),
        Err(ApplyError::NotApplicable(_))
    ));
}

#[test]
fn struct_ops_report_what_cannot_apply() {
    let src = "(a) x\n";
    let fh = file_hash(src.as_bytes());
    let hx = node_hash("x");
    let ha = node_hash("(a)");
    match struct_edit(src, &format!("@ {fh}\nsplice 1:{hx}\n"), Dialect::Scheme) {
        Err(ApplyError::NotApplicable(m)) => assert_eq!(m, "splice: node is not a list"),
        other => panic!("{other:?}"),
    }
    match struct_edit(src, &format!("@ {fh}\nslurp-fwd 1:{ha}\n"), Dialect::Scheme) {
        Err(ApplyError::NotApplicable(m)) => assert_eq!(m, "slurp-fwd: no next sibling"),
        other => panic!("{other:?}"),
    }
    match struct_edit(src, &format!("@ {fh}\njoin 1:{ha} 1:{hx}\n"), Dialect::Scheme) {
        Err(ApplyError::NotApplicable(m)) => assert_eq!(m, "join: both must be lists"),
        other => panic!("{other:?}"),
    }
}

#[test]
fn struct_anchor_not_found_and_drift_are_refused() {
    let src = "(a)\n";
    let fh = file_hash(src.as_bytes());
    assert!(matches!(
        struct_edit(src, &format!("@ {fh}\ndelete 1:0000\n"), Dialect::Scheme),
        Err(ApplyError::AnchorNotFound { line: 1, .. })
    ));
    assert!(matches!(
        struct_edit(src, "@ 0000000000000000\ndelete 1:0000\n", Dialect::Scheme),
        Err(ApplyError::Drift { .. })
    ));
}

#[test]
fn struct_edit_auto_formats_only_the_touched_form() {
    let source = "(defun a ()\n  (x))\n(defun b ()\n  (y))\n";
    let fh = file_hash(source.as_bytes());
    let h = anchor_hash("(x)".as_bytes());
    let written = struct_edit_in(
        source,
        &format!("@ {fh}\nreplace 2:{h} <<END\n(when c\n(foo)\n(bar))\nEND\n"),
        Dialect::EmacsLisp,
        "a.el",
        &[],
    )
    .unwrap();
    assert_eq!(
        written,
        "(defun a ()\n  (when c\n    (foo)\n    (bar)))\n(defun b ()\n  (y))\n"
    );
    let out = outcome_of(source, &written, Dialect::EmacsLisp);
    assert_eq!(out.new_file_hash, file_hash(written.as_bytes()));
}

#[test]
fn format_op_reindents_exactly_the_anchored_nested_form() {
    let source = "(progn\n  (bar a\nb)\n(baz c\nd))\n";
    let fh = file_hash(source.as_bytes());
    let h = anchor_hash("(bar a\nb)".as_bytes());
    let written = struct_edit_in(source, &format!("@ {fh}\nformat 2:{h}\n"), Dialect::EmacsLisp, "f.el", &[])
        .unwrap();
    assert_eq!(written, "(progn\n  (bar a\n       b)\n(baz c\nd))\n");
}

#[test]
fn struct_edit_auto_format_honors_nameless_config() {
    let source = "(defun php-mode-x ()\n(php-mode-some-function arg1\nanother-arg))\n";
    let fh = file_hash(source.as_bytes());
    let h = anchor_hash(
        "(defun php-mode-x ()\n(php-mode-some-function arg1\nanother-arg))".as_bytes(),
    );
    let dir_locals = vec!["((emacs-lisp-mode (nameless-mode . t)))\n".to_string()];
    let written = struct_edit_in(
        source,
        &format!("@ {fh}\nformat 1:{h}\n"),
        Dialect::EmacsLisp,
        "php-mode.el",
        &dir_locals,
    )
    .unwrap();
    let expected = format!(
        "(defun php-mode-x ()\n  (php-mode-some-function arg1\n{}another-arg))\n",
        " ".repeat(23)
    );
    assert_eq!(written, expected);
}

#[test]
fn a_scheme_edit_reindents_the_touched_form() {
    let src = "(define (f)\n(g))\n";
    let fh = file_hash(src.as_bytes());
    let h = node_hash("(g)");
    let out = struct_edit(src, &format!("@ {fh}\nreplace 2:{h} <<END\n(h)\nEND\n"), Dialect::Scheme)
        .unwrap();
    assert_eq!(out, "(define (f)\n  (h))\n");
}
