use lisplens::config::FormatConfig;
use lisplens::nameless::Nameless;
use lisplens::parinfer::{run, Answer, Cursor, Mode, Request};
use lisplens::reader::Dialect;

fn lx(d: Dialect) -> lispexp::Dialect {
    match d {
        Dialect::EmacsLisp => lispexp::Dialect::EmacsLisp,
        Dialect::Clojure => lispexp::Dialect::Clojure,
        _ => unreachable!(),
    }
}
fn req<'a>(mode: Mode, text: &'a str, dialect: Dialect) -> Request<'a> {
    Request {
        mode,
        text,
        dialect,
        config: FormatConfig::default(),
        nameless: None,
        cursor: None,
    }
}

#[test]
fn paren_mode_reindents_balanced_input_faithfully() {
    // Misindented but balanced: paren mode must produce exactly what the
    // faithful formatter would.
    let src = "(defun f (x)\n(+ x\n1))\n";
    let answer = run(&req(Mode::Paren, src, Dialect::EmacsLisp));
    assert!(answer.success);
    assert!(answer.error.is_none());
    let expected = lisplens::format::format(src, &FormatConfig::default(), Dialect::EmacsLisp);
    assert_eq!(answer.text, expected);
    // And the result parses clean (balance generated / preserved).
    assert!(
        lispexp::parse(&answer.text, &lispexp::Options::for_dialect(lispexp::Dialect::EmacsLisp))
            .errors
            .is_empty()
    );
}

#[test]
fn paren_mode_refuses_imbalance_unchanged_with_diagnostic() {
    let src = "(defun f (x\n  (+ x 1)\n"; // unclosed
    let answer = run(&req(Mode::Paren, src, Dialect::EmacsLisp));
    assert!(!answer.success);
    assert_eq!(answer.text, src, "input must be returned unchanged");
    let err = answer.error.expect("a diagnostic");
    assert_eq!(err.name, "unclosed-paren");
    assert_eq!(err.line, 0, "opening line, 0-based");
}

#[test]
fn cursor_tracks_indentation_delta() {
    // Line 1 (`(+ x`) is reindented from column 0 to column 2; a cursor on
    // that line, past the indentation, shifts right by the +2 delta.
    let src = "(defun f (x)\n(+ x\n1))\n";
    let mut r = req(Mode::Paren, src, Dialect::EmacsLisp);
    r.cursor = Some(Cursor { line: 1, x: 3 }); // on the `x` of `(+ x`
    let answer = run(&r);
    let c = answer.cursor.expect("a tracked cursor");
    assert_eq!(c.line, 1);
    assert_eq!(c.x, 5, "3 + (2 - 0) indentation delta");
}

#[test]
fn cursor_in_indentation_lands_at_new_indent() {
    let src = "(defun f (x)\n(+ x\n1))\n";
    let mut r = req(Mode::Paren, src, Dialect::EmacsLisp);
    r.cursor = Some(Cursor { line: 1, x: 0 }); // inside the (empty) old indent
    let answer = run(&r);
    assert_eq!(
        answer.cursor.unwrap().x,
        2,
        "lands at the new indent column"
    );
}

#[test]
fn nameless_production_matches_formatter() {
    // With the Nameless overlay, paren mode must equal the formatter's
    // Nameless path (column generation side).
    let src = "(defun php-mode-foo ()\n(php-mode-bar\n(baz)))\n";
    let nl = Nameless::for_file("php-mode.el");
    let mut r = req(Mode::Paren, src, Dialect::EmacsLisp);
    r.nameless = Some(Nameless::for_file("php-mode.el"));
    let answer = run(&r);
    let expected = lisplens::format::format_elisp_nameless(src, &FormatConfig::default(), &nl);
    assert_eq!(answer.text, expected);
}

#[test]
fn mode_name_parsing() {
    assert_eq!(Mode::from_name("paren"), Some(Mode::Paren));
    assert_eq!(Mode::from_name("indent"), Some(Mode::Indent));
    assert_eq!(Mode::from_name("smart"), None);
}

// --- indent mode ---

fn indent(src: &str, dialect: Dialect) -> Answer {
    run(&req(Mode::Indent, src, dialect))
}

/// Every successful indent-mode result must parse clean (balance-generating).
fn assert_balanced(text: &str, dialect: Dialect) {
    assert!(
        lispexp::parse(text, &lispexp::Options::for_dialect(lx(dialect)))
            .errors
            .is_empty(),
        "expected balanced output, got:\n{text}"
    );
}

#[test]
fn indent_infers_closers_at_eof() {
    let a = indent("(defun f (x)\n  (+ x\n     1", Dialect::EmacsLisp);
    assert!(a.success);
    assert_eq!(a.text, "(defun f (x)\n  (+ x\n     1))");
    assert_balanced(&a.text, Dialect::EmacsLisp);
}

#[test]
fn indent_dedent_closes_and_indentation_is_untouched() {
    // Indentation is authoritative and never rewritten; only closers move.
    let a = indent("(when x\n  (foo)\n  (bar))", Dialect::EmacsLisp);
    assert_eq!(a.text, "(when x\n  (foo)\n  (bar))");
}

#[test]
fn indent_moves_paren_when_next_line_is_indented_deeper() {
    // qux is indented inside bar, so bar's close-paren moves after qux.
    let a = indent("(foo (bar baz)\n          qux)\n", Dialect::EmacsLisp);
    assert_eq!(a.text, "(foo (bar baz\n          qux))\n");
    assert_balanced(&a.text, Dialect::EmacsLisp);
}

#[test]
fn indent_places_closer_before_a_trailing_comment() {
    let a = indent("(defun f ()\n  body  ; hi\n", Dialect::EmacsLisp);
    assert_eq!(a.text, "(defun f ()\n  body)  ; hi\n");
    assert_balanced(&a.text, Dialect::EmacsLisp);
}

#[test]
fn indent_ignores_parens_inside_strings() {
    let a = indent("(list \"a)b\"\n      c\n", Dialect::EmacsLisp);
    assert_eq!(a.text, "(list \"a)b\"\n      c)\n");
    assert_balanced(&a.text, Dialect::EmacsLisp);
}

#[test]
fn indent_all_trail_line_moves_closer_up() {
    let a = indent("(foo\n  bar\n  )\n", Dialect::EmacsLisp);
    assert_eq!(a.text, "(foo\n  bar)\n\n");
    assert_balanced(&a.text, Dialect::EmacsLisp);
}

#[test]
fn indent_trims_superfluous_trailing_closers() {
    let a = indent("(foo))\n", Dialect::EmacsLisp);
    assert!(a.success);
    assert_eq!(a.text, "(foo)\n");
}

#[test]
fn indent_clojure_brackets_maps_and_sets() {
    let a = indent("(defn f [x]\n  {:a 1\n   :b #{1 2}", Dialect::Clojure);
    assert!(a.success);
    assert_eq!(a.text, "(defn f [x]\n  {:a 1\n   :b #{1 2}})");
    assert_balanced(&a.text, Dialect::Clojure);
}

#[test]
fn indent_is_idempotent_on_balanced_input() {
    let src = "(defun f (x)\n  (let ((y (+ x 1)))\n    (message \"%d\" y)))\n";
    let once = indent(src, Dialect::EmacsLisp);
    assert_eq!(once.text, src, "well-formed input is unchanged");
    let twice = indent(&once.text, Dialect::EmacsLisp);
    assert_eq!(twice.text, once.text, "idempotent");
}

#[test]
fn indent_refuses_unterminated_string_unchanged() {
    let src = "(foo \"bar\n";
    let a = indent(src, Dialect::EmacsLisp);
    assert!(!a.success);
    assert_eq!(a.text, src);
    assert_eq!(a.error.unwrap().name, "unclosed-quote");
}

#[test]
fn indent_refuses_eol_backslash_unchanged() {
    let src = "(foo bar\\\n baz)\n";
    let a = indent(src, Dialect::EmacsLisp);
    assert!(!a.success);
    assert_eq!(a.text, src);
    assert_eq!(a.error.unwrap().name, "eol-backslash");
}

#[test]
fn indent_refuses_mid_line_unmatched_close() {
    let a = indent("a)b\n", Dialect::EmacsLisp);
    assert!(!a.success);
    assert_eq!(a.error.unwrap().name, "unmatched-close-paren");
}

#[test]
fn indent_cursor_is_clamped_to_line_length() {
    let mut r = req(Mode::Indent, "(a\n  b", Dialect::EmacsLisp);
    r.cursor = Some(Cursor { line: 1, x: 99 });
    let a = run(&r);
    let c = a.cursor.unwrap();
    assert_eq!(c.line, 1);
    assert_eq!(c.x, 4, "clamped to `  b)` length");
}

#[test]
fn indent_empty_input_is_unchanged() {
    let a = indent("", Dialect::EmacsLisp);
    assert!(a.success);
    assert_eq!(a.text, "");
}

/// Under Nameless, `php-foo` displays as `:foo`, so the
/// inner `(` sits at displayed column 6, not raw column 9. `baz` indented to
/// 7 spaces is therefore *inside* `bar` (7 > 6). Without the overlay, naive
/// raw-column reading (7 < 9) would close `bar` and kick `baz` out.
#[test]
fn indent_nameless_reads_displayed_columns() {
    let src = "(php-foo (bar\n       baz";
    let mut r = req(Mode::Indent, src, Dialect::EmacsLisp);
    r.nameless = Some(Nameless::for_file("php-mode.el"));
    let a = run(&r);
    assert!(a.success);
    assert_eq!(
        a.text, "(php-foo (bar\n       baz))",
        "baz stays inside bar"
    );
    assert_balanced(&a.text, Dialect::EmacsLisp);
}

#[test]
fn indent_nameless_off_is_unchanged_from_core() {
    // Same input, no overlay: raw columns kick baz out of bar.
    let src = "(php-foo (bar\n       baz";
    let a = indent(src, Dialect::EmacsLisp);
    assert_eq!(a.text, "(php-foo (bar)\n       baz)");
}

// --- page breaks (^L) are content, not whitespace ---

/// Paren mode reindents through the formatter, which preserves `^L` page-break
/// separators. The transform must equal the formatter's output and
/// keep every `^L` — parinfer must not reintroduce the separator-deleting bug.
#[test]
fn paren_mode_preserves_page_breaks() {
    let src = "(defun a ()\n1)\n\u{0c}\n(defun b ()\n2)\n";
    let answer = run(&req(Mode::Paren, src, Dialect::EmacsLisp));
    assert!(answer.success);
    let expected = lisplens::format::format(src, &FormatConfig::default(), Dialect::EmacsLisp);
    assert_eq!(answer.text, expected, "paren mode must equal the formatter");
    assert_eq!(
        answer.text.matches('\u{0c}').count(),
        1,
        "the page break survives"
    );
}

/// Indent mode must preserve a bare `^L` line: it is content, not strippable
/// whitespace, so `trim_end` must not eat it (the formatter bug). A
/// page-break-only line makes no indentation decision but is emitted verbatim,
/// leaving well-formed input byte-identical (and the transform idempotent).
#[test]
fn indent_preserves_a_page_break_line() {
    let src = "(defun a ()\n  1)\n\u{0c}\n(defun b ()\n  2)\n";
    let a = indent(src, Dialect::EmacsLisp);
    assert!(a.success);
    assert_eq!(a.text, src, "page break kept, structure untouched");
    assert_balanced(&a.text, Dialect::EmacsLisp);
    // And running it again changes nothing.
    assert_eq!(indent(&a.text, Dialect::EmacsLisp).text, src);
}

/// A `^L` sharing a line with a following comment survives too — the page break
/// stays as leading content, the comment after it is preserved, and the line is
/// treated as structurally blank (it makes no indentation decision).
#[test]
fn indent_preserves_a_page_break_before_a_comment() {
    let src = "(defun a ()\n  1)\n\u{0c};; Section\n(defun b ()\n  2)\n";
    let a = indent(src, Dialect::EmacsLisp);
    assert!(a.success);
    assert_eq!(a.text, src, "`^L;; Section` line preserved verbatim");
}

/// A closer immediately followed by a `^L` is locked, not stripped: stripping
/// the "movable" trail would discard the page break with it. Well-formed input
/// of this shape passes through byte-identical.
#[test]
fn indent_locks_a_closer_followed_by_a_page_break() {
    let src = "(foo\n  bar)\u{0c}\n(baz)\n";
    let a = indent(src, Dialect::EmacsLisp);
    assert!(a.success);
    assert_eq!(a.text, src, "closer + `^L` kept verbatim");
    assert_balanced(&a.text, Dialect::EmacsLisp);
}

/// A `^L` *inside* a paren trail splits it: the closer before the `^L` is
/// locked (keeping the page break), while closers after it are still movable —
/// here the final one is superfluous and gets trimmed, and indentation
/// authority still restructures as usual. The `^L` must survive it all.
#[test]
fn indent_page_break_inside_a_trail_survives() {
    let a = indent("(foo (bar\n  baz)\u{0c})\n", Dialect::EmacsLisp);
    assert!(a.success);
    assert_eq!(a.text, "(foo (bar)\n  baz)\u{0c}\n");
    assert_balanced(&a.text, Dialect::EmacsLisp);
}

// --- cursor-line trail protection ---

#[test]
fn indent_cursor_protects_the_trail_on_its_line() {
    // Without a cursor, bar's close-paren is stripped and the deep `baz` is
    // pulled inside bar. With the cursor on bar's line (its paren trail), that
    // closer is locked — `baz` is not yanked in, the trail stays put.
    let src = "(foo (bar)\n          baz";
    let plain = indent(src, Dialect::EmacsLisp);
    assert_eq!(plain.text, "(foo (bar\n          baz))");

    let mut r = req(Mode::Indent, src, Dialect::EmacsLisp);
    r.cursor = Some(Cursor { line: 0, x: 10 });
    let protected = run(&r);
    assert!(protected.success);
    assert_eq!(protected.text, "(foo (bar)\n          baz)");
    assert_balanced(&protected.text, Dialect::EmacsLisp);
}

#[test]
fn indent_protection_yields_to_preserve_balance() {
    // Protecting the cursor line's trail would keep an extra `)` and unbalance
    // the result, so protection yields and the transform trims it.
    let mut r = req(Mode::Indent, "(a))\n", Dialect::EmacsLisp);
    r.cursor = Some(Cursor { line: 0, x: 3 });
    let a = run(&r);
    assert!(a.success);
    assert_eq!(a.text, "(a)\n");
}

#[test]
fn indent_mode_text_keeps_each_line_and_moves_only_closers() {
    let src = "(defn f [x]\n  (let [y 1]\n    (+ x y)))\n  (g x)\n";
    let req = Request {
        mode: Mode::Indent,
        text: src,
        dialect: Dialect::Clojure,
        config: FormatConfig::default(),
        nameless: None,
        cursor: None,
    };
    let a: Answer = run(&req);
    assert!(a.success);
    let before: Vec<&str> = src.split('\n').collect();
    let after: Vec<&str> = a.text.split('\n').collect();
    assert_eq!(before.len(), after.len());
    for (x, y) in before.iter().zip(after.iter()) {
        let code = x.trim_end_matches([')', ']', '}', ' ']);
        assert!(y.starts_with(code), "{y:?} keeps {code:?}");
        assert!(y[code.len()..].chars().all(|c| c == ')' || c == ']' || c == '}'));
    }
    assert_eq!(a.text, "(defn f [x]\n  (let [y 1]\n    (+ x y))\n  (g x))\n");
}
