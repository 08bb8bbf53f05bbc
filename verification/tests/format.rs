use lisplens::config::FormatConfig;
use lisplens::format::{format_elisp, format_elisp_nameless, reindent_block, reindent_range};
use lisplens::reader::Dialect;
use lisplens::nameless::Nameless;


    /// Reindenting flat input must reproduce Emacs's canonical output (captured
    /// from a real `emacs -Q --batch` buffer with `indent-tabs-mode` nil).
    #[test]
    fn format_matches_emacs_on_common_forms() {
        let input = "\
(defun foo (x)
(bar x)
(baz x))
(when cond
(do-thing)
(do-other))
(let ((a 1)
(b 2))
(+ a b))
(some-function arg1
arg2
arg3)
(cond
(test1 result1)
(test2 result2))
(progn
(a)
(b))
";
        let expected = "\
(defun foo (x)
  (bar x)
  (baz x))
(when cond
  (do-thing)
  (do-other))
(let ((a 1)
      (b 2))
  (+ a b))
(some-function arg1
               arg2
               arg3)
(cond
 (test1 result1)
 (test2 result2))
(progn
  (a)
  (b))
";
        assert_eq!(format_elisp(input, &FormatConfig::default()), expected);
    }

    #[test]
    fn format_matches_emacs_on_def_family_and_specforms() {
        let input = "\
(cl-defun cf (a)
(body1)
(body2))
(defvar my-var
(compute))
(if test
then
else)
(condition-case err
(risky)
(error handler))
(outer (inner a
b)
c)
";
        let expected = "\
(cl-defun cf (a)
  (body1)
  (body2))
(defvar my-var
  (compute))
(if test
    then
  else)
(condition-case err
    (risky)
  (error handler))
(outer (inner a
              b)
       c)
";
        assert_eq!(format_elisp(input, &FormatConfig::default()), expected);
    }

    /// Under Nameless alignment is measured against the displayed,
    /// composed width: `php-` (current name, 4 chars) collapses to `:` (1) and
    /// `font-lock-` (10) to `fl:` (2), so first-argument alignment shifts left
    /// by 3 and 8 columns respectively. Golden captured from Emacs with
    /// `nameless-mode` and `nameless-current-name` = "php".
    #[test]
    fn format_matches_emacs_under_nameless() {
        let input = "\
(defun php-mode-foo-bar (arg)
(php-mode-some-function arg
another-arg)
(font-lock-add-keywords nil
kw))
";
        let expected = "\
(defun php-mode-foo-bar (arg)
  (php-mode-some-function arg
                       another-arg)
  (font-lock-add-keywords nil
                  kw))
";
        let nl = Nameless::for_file("php-mode.el");
        assert_eq!(format_elisp_nameless(input, &FormatConfig::default(), &nl), expected);
        // Off by default: without Nameless the alignment is the literal width.
        assert!(format_elisp(input, &FormatConfig::default())
            .contains("\n                          another-arg)"));
    }

    /// Data lists (non-symbol head), dotted-tail sublists, `progn`-style body
    /// forms that start on the open-paren line, and prefixed heads — golden
    /// captured from Emacs `indent-region`.
    #[test]
    fn format_matches_emacs_on_data_lists_and_prefixed_heads() {
        let input = "\
(defconst names
'(;; leading comment
\"a\" \"b\"
\"c\"))
(defvar styles
`((a . ((x . 1)
(y . 2)))))
(defun f ()
(progn (a)
(b)))
(defun g ()
`(,head first
,(compute)))
";
        let expected = "\
(defconst names
  '(;; leading comment
    \"a\" \"b\"
    \"c\"))
(defvar styles
  `((a . ((x . 1)
          (y . 2)))))
(defun f ()
  (progn (a)
         (b)))
(defun g ()
  `(,head first
          ,(compute)))
";
        assert_eq!(format_elisp(input, &FormatConfig::default()), expected);
    }

    /// A dotted pair with a lone car (`'(eval . FORM)`, the font-lock idiom)
    /// aligns the tail's continuation under the `.` — Emacs treats the lone dot
    /// as the first argument. Needs lispexp's `dot_span`. Golden from Emacs.
    #[test]
    fn format_matches_emacs_on_dotted_pair_tail() {
        let input = "\
(defvar kw
(list
'(eval .
;; comment under the dot
(list a
b))))
";
        let expected = "\
(defvar kw
  (list
   '(eval .
          ;; comment under the dot
          (list a
                b))))
";
        assert_eq!(format_elisp(input, &FormatConfig::default()), expected);
    }

    /// Whitespace right after an open paren (`( a b`) makes Emacs align the
    /// continuation under the first element, not the first argument — even for a
    /// symbol head, and for a dotted tail (`( a b . ,x)`). Golden from Emacs.
    #[test]
    fn format_matches_emacs_on_whitespace_after_open_paren() {
        let input = "\
(defvar x
`( TIMESTAMP MULTIPLE
. ,(delq a
b)))
(defun f ()
( one two
three))
";
        let expected = "\
(defvar x
  `( TIMESTAMP MULTIPLE
     . ,(delq a
              b)))
(defun f ()
  ( one two
    three))
";
        assert_eq!(format_elisp(input, &FormatConfig::default()), expected);
    }

    /// A `;;;` comment line keeps its column (Emacs never reindents one), while
    /// `;;` comments indent as code.
    #[test]
    fn format_triple_semicolon_comment_is_left_in_place() {
        let input = "(defun f ()\n;; two\n;;; three\n(body))\n";
        let expected = "(defun f ()\n  ;; two\n;;; three\n  (body))\n";
        assert_eq!(format_elisp(input, &FormatConfig::default()), expected);
    }

    #[test]
    fn format_already_formatted_is_a_fixed_point() {
        let formatted = "(defun foo (x)\n  (bar x))\n";
        assert_eq!(format_elisp(formatted, &FormatConfig::default()), formatted);
    }

    #[test]
    fn format_a_multiline_string_is_left_untouched() {
        let src = "(defun f ()\n  \"a\n    b\")\n";
        // The string's second line must not be reindented.
        assert!(format_elisp(src, &FormatConfig::default()).contains("\n    b\""));
    }

    /// Reindenting flat input must reproduce Emacs's canonical output (captured
    /// from a real `emacs -Q --batch` buffer with `indent-tabs-mode` nil).
    #[test]
    fn mod_matches_emacs_on_common_forms() {
        let input = "\
(defun foo (x)
(bar x)
(baz x))
(when cond
(do-thing)
(do-other))
(let ((a 1)
(b 2))
(+ a b))
(some-function arg1
arg2
arg3)
(cond
(test1 result1)
(test2 result2))
(progn
(a)
(b))
";
        let expected = "\
(defun foo (x)
  (bar x)
  (baz x))
(when cond
  (do-thing)
  (do-other))
(let ((a 1)
      (b 2))
  (+ a b))
(some-function arg1
               arg2
               arg3)
(cond
 (test1 result1)
 (test2 result2))
(progn
  (a)
  (b))
";
        assert_eq!(format_elisp(input, &FormatConfig::default()), expected);
    }

    #[test]
    fn mod_matches_emacs_on_def_family_and_specforms() {
        let input = "\
(cl-defun cf (a)
(body1)
(body2))
(defvar my-var
(compute))
(if test
then
else)
(condition-case err
(risky)
(error handler))
(outer (inner a
b)
c)
";
        let expected = "\
(cl-defun cf (a)
  (body1)
  (body2))
(defvar my-var
  (compute))
(if test
    then
  else)
(condition-case err
    (risky)
  (error handler))
(outer (inner a
              b)
       c)
";
        assert_eq!(format_elisp(input, &FormatConfig::default()), expected);
    }

    /// Under Nameless alignment is measured against the displayed,
    /// composed width: `php-` (current name, 4 chars) collapses to `:` (1) and
    /// `font-lock-` (10) to `fl:` (2), so first-argument alignment shifts left
    /// by 3 and 8 columns respectively. Golden captured from Emacs with
    /// `nameless-mode` and `nameless-current-name` = "php".
    #[test]
    fn mod_matches_emacs_under_nameless() {
        let input = "\
(defun php-mode-foo-bar (arg)
(php-mode-some-function arg
another-arg)
(font-lock-add-keywords nil
kw))
";
        let expected = "\
(defun php-mode-foo-bar (arg)
  (php-mode-some-function arg
                       another-arg)
  (font-lock-add-keywords nil
                  kw))
";
        let nl = Nameless::for_file("php-mode.el");
        assert_eq!(
            format_elisp_nameless(input, &FormatConfig::default(), &nl),
            expected
        );
        // Off by default: without Nameless the alignment is the literal width.
        assert!(format_elisp(input, &FormatConfig::default())
            .contains("\n                          another-arg)"));
    }

    /// Data lists (non-symbol head), dotted-tail sublists, `progn`-style body
    /// forms that start on the open-paren line, and prefixed heads — golden
    /// captured from Emacs `indent-region`.
    #[test]
    fn mod_matches_emacs_on_data_lists_and_prefixed_heads() {
        let input = "\
(defconst names
'(;; leading comment
\"a\" \"b\"
\"c\"))
(defvar styles
`((a . ((x . 1)
(y . 2)))))
(defun f ()
(progn (a)
(b)))
(defun g ()
`(,head first
,(compute)))
";
        let expected = "\
(defconst names
  '(;; leading comment
    \"a\" \"b\"
    \"c\"))
(defvar styles
  `((a . ((x . 1)
          (y . 2)))))
(defun f ()
  (progn (a)
         (b)))
(defun g ()
  `(,head first
          ,(compute)))
";
        assert_eq!(format_elisp(input, &FormatConfig::default()), expected);
    }

    /// A lone `;` own-line comment aligns to `comment-column` (default 40),
    /// independent of nesting; `;;` still indents as code. Matches Emacs
    /// `indent-for-comment`; `comment_column` is configurable.
    #[test]
    fn lone_semicolon_comment_aligns_to_comment_column() {
        let input = "(defun f ()\n; margin\n;; code\n(bar))\n";
        let expected = format!(
            "(defun f ()\n{}; margin\n  ;; code\n  (bar))\n",
            " ".repeat(40)
        );
        assert_eq!(format_elisp(input, &FormatConfig::default()), expected);

        let cfg = FormatConfig {
            comment_column: 20,
            ..FormatConfig::default()
        };
        let expected20 = format!(
            "(defun f ()\n{}; margin\n  ;; code\n  (bar))\n",
            " ".repeat(20)
        );
        assert_eq!(format_elisp(input, &cfg), expected20);
    }

    /// `lisp-body-indent` (config `body_indent`) scales every structural step:
    /// a body form lands at `open_col + body`, a specform's 1st/2nd distinguished
    /// at `open_col + 2*body`. Golden from Emacs with `lisp-body-indent` = 4.
    #[test]
    fn body_indent_override_matches_emacs() {
        let input = "\
(defun foo (x)
(bar x))
(when c
(a))
(if test
then
else)
";
        let expected = "\
(defun foo (x)
    (bar x))
(when c
    (a))
(if test
        then
    else)
";
        let cfg = FormatConfig {
            body_indent: 4,
            ..FormatConfig::default()
        };
        assert_eq!(format_elisp(input, &cfg), expected);
    }

    /// A dotted pair with a lone car (`'(eval . FORM)`, the font-lock idiom)
    /// aligns the tail's continuation under the `.` — Emacs treats the lone dot
    /// as the first argument. Needs lispexp's `dot_span`. Golden from Emacs.
    #[test]
    fn mod_matches_emacs_on_dotted_pair_tail() {
        let input = "\
(defvar kw
(list
'(eval .
;; comment under the dot
(list a
b))))
";
        let expected = "\
(defvar kw
  (list
   '(eval .
          ;; comment under the dot
          (list a
                b))))
";
        assert_eq!(format_elisp(input, &FormatConfig::default()), expected);
    }

    /// Whitespace right after an open paren (`( a b`) makes Emacs align the
    /// continuation under the first element, not the first argument — even for a
    /// symbol head, and for a dotted tail (`( a b . ,x)`). Golden from Emacs.
    #[test]
    fn mod_matches_emacs_on_whitespace_after_open_paren() {
        let input = "\
(defvar x
`( TIMESTAMP MULTIPLE
. ,(delq a
b)))
(defun f ()
( one two
three))
";
        let expected = "\
(defvar x
  `( TIMESTAMP MULTIPLE
     . ,(delq a
              b)))
(defun f ()
  ( one two
    three))
";
        assert_eq!(format_elisp(input, &FormatConfig::default()), expected);
    }

    /// A `;;;` comment line keeps its column (Emacs never reindents one), while
    /// `;;` comments indent as code.
    #[test]
    fn mod_triple_semicolon_comment_is_left_in_place() {
        let input = "(defun f ()\n;; two\n;;; three\n(body))\n";
        let expected = "(defun f ()\n  ;; two\n;;; three\n  (body))\n";
        assert_eq!(format_elisp(input, &FormatConfig::default()), expected);
    }

    /// A page break (`^L`) is content, not indentation: a reindent must never
    /// delete one. Emacs Lisp files separate their `;; Variables:` / `;; Functions:`
    /// sections with a `^L` on its own line, and `str::trim_start` counts `^L` as
    /// whitespace — which made a `^L`-only line look blank and get blanked out.
    /// Golden captured from Emacs `indent-region`.
    #[test]
    fn a_page_break_line_survives_a_reindent() {
        let input = "\
;;; Code:

\u{0c}
(defvar test-foo nil)

\u{0c}
(defun test-bar ()
nil)
";
        let expected = "\
;;; Code:

\u{0c}
(defvar test-foo nil)

\u{0c}
(defun test-bar ()
  nil)
";
        assert_eq!(format_elisp(input, &FormatConfig::default()), expected);
    }

    /// A `^L` indents like code — Emacs's `indent-line-to` deletes only the
    /// horizontal whitespace before it, so the page break is pushed to the line's
    /// new column instead of being removed. A top-level `^L` dedents to 0; one in a
    /// body moves to the body indent. Golden captured from Emacs `indent-region`.
    #[test]
    fn a_page_break_indents_as_code() {
        let input = "(defun a ()\n  (let ((x 1))\n\u{0c}\n    (message \"in\")\n  \u{0c}\n    x))\n\n   \u{0c}\n(defun b () nil)\n";
        let expected = "(defun a ()\n  (let ((x 1))\n    \u{0c}\n    (message \"in\")\n    \u{0c}\n    x))\n\n\u{0c}\n(defun b () nil)\n";
        assert_eq!(format_elisp(input, &FormatConfig::default()), expected);
    }

    /// A line whose first character is a `^L` is code, not a comment line: Emacs
    /// sends `^L; foo` to the body indent, not to `comment-column`, because the
    /// lone-`;` rule keys on the line's *first* character. Golden captured from
    /// Emacs `indent-region`.
    #[test]
    fn a_page_break_before_a_comment_is_not_a_comment_line() {
        let input = "(defun c ()\n\u{0c};; two\n\u{0c}; lone\n  nil)\n";
        let expected = "(defun c ()\n  \u{0c};; two\n  \u{0c}; lone\n  nil)\n";
        assert_eq!(format_elisp(input, &FormatConfig::default()), expected);
    }

    #[test]
    fn mod_already_formatted_is_a_fixed_point() {
        let formatted = "(defun foo (x)\n  (bar x))\n";
        assert_eq!(format_elisp(formatted, &FormatConfig::default()), formatted);
    }

    #[test]
    fn mod_a_multiline_string_is_left_untouched() {
        let src = "(defun f ()\n  \"a\n    b\")\n";
        // The string's second line must not be reindented.
        assert!(format_elisp(src, &FormatConfig::default()).contains("\n    b\""));
    }

    /// A whitespace-only line *inside* a string is part of the string's value, so
    /// the blank-line rule must not reach it: blanking it would turn the docstring
    /// `"a\n   \n  b"` into `"a\n\n  b"` — a reindent silently rewriting the data.
    /// Emacs leaves the line alone (`calculate-lisp-indent` returns nil in a
    /// string). Golden captured from Emacs `indent-region`.
    #[test]
    fn a_whitespace_only_line_inside_a_string_keeps_its_spaces() {
        let src = "(defun f ()\n  \"Line one.\n   \n  Line three.\"\n  nil)\n";
        assert_eq!(format_elisp(src, &FormatConfig::default()), src);
    }

    /// The same rule outside a string: a whitespace-only line is *not* string data,
    /// so it is normalized to empty, as Emacs's `indent-region` does.
    #[test]
    fn a_whitespace_only_line_outside_a_string_is_blanked() {
        let input = "(defun f ()\n  (a))\n   \n(defun g ()\n  (b))\n";
        let expected = "(defun f ()\n  (a))\n\n(defun g ()\n  (b))\n";
        assert_eq!(format_elisp(input, &FormatConfig::default()), expected);
    }

    /// Emacs indents each `(name ARGLIST body…)` binding of `cl-labels` / `cl-flet`
    /// / `cl-flet*` / `cl-macrolet` as a *local defun*: a body form sits at the
    /// binding's own open-paren column plus `lisp-body-indent`, not aligned under
    /// `ARGLIST` as an ordinary call's continuation would be. Goldens captured from
    /// Emacs `indent-region` (with `cl-lib`/`cl-macs` loaded).
    #[test]
    fn cl_labels_binding_body_indents_as_local_defun() {
        let input = "(cl-labels ((json-get (obj key)\n(cond\n((hash-table-p obj)\n(gethash key obj)))))\n(body))\n";
        let expected = "\
(cl-labels ((json-get (obj key)
              (cond
               ((hash-table-p obj)
                (gethash key obj)))))
  (body))
";
        assert_eq!(format_elisp(input, &FormatConfig::default()), expected);
    }

    /// Multiple `cl-flet` bindings, each with its own body at binding-open + 2.
    #[test]
    fn cl_flet_multiple_bindings_each_indent_their_body() {
        let input = "(cl-flet ((f (x)\n(+ x 1))\n(g (y)\n(* y 2)))\n(f 1))\n";
        let expected = "\
(cl-flet ((f (x)
            (+ x 1))
          (g (y)
            (* y 2)))
  (f 1))
";
        assert_eq!(format_elisp(input, &FormatConfig::default()), expected);
    }

    /// An empty `ARGLIST` still puts the body at binding-open + 2, and a `cl-macrolet`
    /// binding is treated the same as `cl-flet`/`cl-labels`.
    #[test]
    fn cl_flet_empty_arglist_and_cl_macrolet_body() {
        let input = "(cl-labels ((h ()\nnil))\n(h))\n\n(cl-macrolet ((m (x)\n`(+ ,x 1)))\n(m 2))\n";
        let expected = "\
(cl-labels ((h ()
              nil))
  (h))

(cl-macrolet ((m (x)
                `(+ ,x 1)))
  (m 2))
";
        assert_eq!(format_elisp(input, &FormatConfig::default()), expected);
    }

    /// An `ARGLIST` written on its own line (not sharing the binding's first line)
    /// is a continuation past `name`, so Emacs sends it to binding-open + 2 just
    /// like a body form — the binding is one local defun.
    #[test]
    fn cl_labels_own_line_arglist_indents_as_body() {
        let input = "(cl-labels ((get-xrefs-in-file\n(file-locs)\n(-let [(filename . matches) file-locs]\n(list filename matches))))\n(body))\n";
        let expected = "\
(cl-labels ((get-xrefs-in-file
              (file-locs)
              (-let [(filename . matches) file-locs]
                    (list filename matches))))
  (body))
";
        assert_eq!(format_elisp(input, &FormatConfig::default()), expected);
    }

    /// A multi-line `ARGLIST` keeps ordinary list alignment on its continuation
    /// (`b` under `a`), while the binding's body still goes to binding-open + 2 —
    /// the body rule keys on the innermost container being the binding itself, which
    /// the arglist line is not.
    #[test]
    fn cl_flet_multiline_arglist_keeps_list_alignment() {
        let input = "(cl-flet ((k (a\nb)\n(list a b)))\n(k 1 2))\n";
        let expected = "\
(cl-flet ((k (a
              b)
            (list a b)))
  (k 1 2))
";
        assert_eq!(format_elisp(input, &FormatConfig::default()), expected);
    }

    /// Alignment is measured in **display** columns (East Asian Width), matching
    /// Emacs's `current-column`: a continuation aligns under the first argument
    /// counting each glyph by its width, not its UTF-8 byte length. `λ`/`☆`
    /// (ambiguous) are width 1, `漢` (wide) / `Ａ` (fullwidth) are width 2 — so the
    /// two blocks indent differently. Golden captured from Emacs `indent-region`.
    #[test]
    fn aligns_multibyte_heads_by_display_width() {
        let input = "\
(λλλλ arg1
arg2)
(漢漢漢漢 arg1
arg2)
(ＡＡＡＡ arg1
arg2)
(☆☆☆☆ arg1
arg2)
";
        let expected = "\
(λλλλ arg1
      arg2)
(漢漢漢漢 arg1
          arg2)
(ＡＡＡＡ arg1
          arg2)
(☆☆☆☆ arg1
      arg2)
";
        assert_eq!(format_elisp(input, &FormatConfig::default()), expected);
    }
/// A touched-region reindent rewrites only the top-level forms an edit
/// overlapped; other forms stay byte-identical, even if misindented.
#[test]
fn reindent_range_touches_only_overlapping_forms() {
    let source = "(defun a ()\n(x))\n(defun b ()\n(y))\n";
    let second = source.find("(defun b").unwrap();
    let out = reindent_range(
        source,
        &FormatConfig::default(),
        Dialect::EmacsLisp,
        std::slice::from_ref(&(second..second + 1)),
    );
    // Second form reindented (body at col 2); first left flat.
    assert_eq!(out, "(defun a ()\n(x))\n(defun b ()\n  (y))\n");

    // A range in the first form reindents that one instead.
    let out2 = reindent_range(
        source,
        &FormatConfig::default(),
        Dialect::EmacsLisp,
        std::slice::from_ref(&(0..1)),
    );
    assert_eq!(out2, "(defun a ()\n  (x))\n(defun b ()\n(y))\n");
}

/// `reindent_block` rewrites only the anchored (nested) form's lines, in
/// full context; `reindent_range` expands to the whole top-level form. Same
/// input, different scope.
#[test]
fn reindent_block_is_exact_reindent_range_expands() {
    let source = "(progn\n  (bar a\nb)\n(baz c\nd))\n";
    let bar = source.find("(bar").unwrap()..source.find("b)").unwrap() + 2;

    // Block: only `(bar a / b)` reindented; `(baz c / d)` left flat.
    let block = reindent_block(
        source,
        &FormatConfig::default(),
        Dialect::EmacsLisp,
        bar.clone(),
    );
    assert_eq!(block, "(progn\n  (bar a\n       b)\n(baz c\nd))\n");

    // Range: expands to the whole `progn`, so `baz`/`d` are fixed too.
    let range = reindent_range(
        source,
        &FormatConfig::default(),
        Dialect::EmacsLisp,
        std::slice::from_ref(&bar),
    );
    assert_eq!(range, "(progn\n  (bar a\n       b)\n  (baz c\n       d))\n");
}

/// `trim_indent` lives in the shared per-line driver, so every engine —
/// not just Emacs Lisp — preserves a `^L` page-break line. Pin one input
/// through each engine family (Clojure, Common Lisp, Scheme).
#[test]
fn a_page_break_survives_every_engine() {
    for dialect in [Dialect::Clojure, Dialect::CommonLisp, Dialect::Scheme] {
        let input = "(a\n1)\n\u{0c}\n(b\n2)\n";
        let out = lisplens::format::format(input, &FormatConfig::default(), dialect);
        assert_eq!(
            out.matches('\u{0c}').count(),
            1,
            "{dialect:?} must keep the page break"
        );
    }
}

#[test]
fn reformatting_changes_only_indentation_line_by_line() {
    let src = "(defun f (x)\n        (let ((y 1))\n   (+ x y)))\n;; note\n\n(g\n\t1)\n";
    let out = lisplens::format::format(src, &FormatConfig::default(), Dialect::EmacsLisp);
    let a: Vec<&str> = src.split('\n').collect();
    let b: Vec<&str> = out.split('\n').collect();
    assert_eq!(a.len(), b.len());
    for (x, y) in a.iter().zip(b.iter()) {
        assert_eq!(x.trim_start_matches([' ', '\t']), y.trim_start_matches([' ', '\t']));
    }
    assert_ne!(out, src);
}

#[test]
fn islisp_eisl_style_is_opt_in() {
    let src = "(defun f (x)\n(+ x 1))\n";
    let plain = lisplens::format::format(src, &FormatConfig::default(), Dialect::Islisp);
    assert_eq!(plain, "(defun f (x)\n  (+ x 1))\n");
    let eisl = FormatConfig { islisp_eisl: true, ..FormatConfig::default() };
    let styled = lisplens::format::format(src, &eisl, Dialect::Islisp);
    assert_eq!(styled, "(defun f (x)\n    (+ x 1))\n");
}
