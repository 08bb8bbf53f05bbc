use lisplens::config::FormatConfig;
use lisplens::reader::Dialect;

fn fmt(input: &str) -> String {
    lisplens::format::format(input, &FormatConfig::default(), Dialect::Scheme)
}

    /// Reindent flat Scheme and compare to Emacs's canonical output (captured
    /// from `scheme-mode`, `indent-tabs-mode` nil). Covers `define`/body, plain
    /// vs named `let`, `let*`/`letrec`, `case`, `cond`, `do`, `lambda`,
    /// `when`/`unless`, and a plain function-call alignment.
    #[test]
    fn scheme_matches_emacs_on_common_forms() {
        let input = "\
(define (foo x)
(bar x)
(baz x))
(let ((a 1)
(b 2))
(+ a b))
(let loop ((i 0))
(when (< i 10)
(loop (+ i 1))))
(let* ((a 1)
(b 2))
(+ a b))
(letrec ((f (lambda () (g)))
(g (lambda () (f))))
(f))
(case x
((1) 'one)
((2) 'two))
(cond ((positive? x)
'pos)
((negative? x)
'neg))
(do ((i 0 (+ i 1))
(acc '() (cons i acc)))
((= i 5) acc))
(lambda (x)
(* x x))
(when test
(do-thing)
(do-other))
(unless test
(fallback))
(some-function arg1
arg2
arg3)
";
        let expected = "\
(define (foo x)
  (bar x)
  (baz x))
(let ((a 1)
      (b 2))
  (+ a b))
(let loop ((i 0))
  (when (< i 10)
    (loop (+ i 1))))
(let* ((a 1)
       (b 2))
  (+ a b))
(letrec ((f (lambda () (g)))
         (g (lambda () (f))))
  (f))
(case x
  ((1) 'one)
  ((2) 'two))
(cond ((positive? x)
       'pos)
      ((negative? x)
       'neg))
(do ((i 0 (+ i 1))
     (acc '() (cons i acc)))
    ((= i 5) acc))
(lambda (x)
  (* x x))
(when test
  (do-thing)
  (do-other))
(unless test
  (fallback))
(some-function arg1
               arg2
               arg3)
";
        assert_eq!(fmt(input), expected);
    }

    /// `syntax-rules` indents like `defun`; quasiquote data aligns like a data
    /// list (non-symbol head path); `define-record-type` uses its integer spec.
    /// Golden captured from Emacs `scheme-mode`.
    #[test]
    fn matches_emacs_on_macros_and_data() {
        let input = "\
(define-syntax swap!
(syntax-rules ()
((_ a b)
(let ((tmp a))
(set! a b)
(set! b tmp)))))
(define data
`(one
two
three))
(define-record-type point
(make-point x y)
point?
(x point-x)
(y point-y))
";
        let expected = "\
(define-syntax swap!
  (syntax-rules ()
    ((_ a b)
     (let ((tmp a))
       (set! a b)
       (set! b tmp)))))
(define data
  `(one
    two
    three))
(define-record-type point
  (make-point x y)
  point?
  (x point-x)
  (y point-y))
";
        assert_eq!(fmt(input), expected);
    }

    /// The specialised integer specs and their `normal-indent` interaction:
    /// `receive` (2 distinguished), `dynamic-wind` (3 distinguished — the third
    /// `lambda` also lands at `2×body`), `with-output-to-string` (0, from the MIT
    /// block, so the body is at `open+body`), `define-record-type` (1, fields
    /// under the first body form), and `do` (2). Golden captured from Emacs
    /// `scheme-mode`.
    #[test]
    fn matches_emacs_on_specialised_specforms() {
        let input = "\
(receive (a b)
(values 1 2)
(+ a b))
(dynamic-wind
(lambda () (setup))
(lambda ()
(work))
(lambda () (teardown)))
(with-output-to-string
(lambda ()
(display \"hi\")))
(define-record-type point
(make-point x y)
point?
(x point-x)
(y point-y))
(do ((i 0 (+ i 1)))
((= i 5))
(display i))
";
        let expected = "\
(receive (a b)
    (values 1 2)
  (+ a b))
(dynamic-wind
    (lambda () (setup))
    (lambda ()
      (work))
    (lambda () (teardown)))
(with-output-to-string
  (lambda ()
    (display \"hi\")))
(define-record-type point
  (make-point x y)
  point?
  (x point-x)
  (y point-y))
(do ((i 0 (+ i 1)))
    ((= i 5))
  (display i))
";
        assert_eq!(fmt(input), expected);
    }

    /// Vectors and char literals: a `#(…)` char vector (`#\\x…` heads) is *data*,
    /// aligning under the first element, while a `#u8(…)` bytevector (numeric
    /// `#xNN` heads) is a *call*, aligning under the second element. Golden
    /// captured from Emacs `scheme-mode`.
    #[test]
    fn matches_emacs_on_vectors_and_char_literals() {
        let input = "\
(define chars
'#(#\\a
#\\b
#\\c))
(define bytes
'#u8(1 2 3
4 5 6
7 8 9))
";
        let expected = "\
(define chars
  '#(#\\a
     #\\b
     #\\c))
(define bytes
  '#u8(1 2 3
         4 5 6
         7 8 9))
";
        assert_eq!(fmt(input), expected);
    }

    /// The Scheme engine only rewrites leading whitespace, so an already-
    /// formatted file is a fixed point.
    #[test]
    fn scheme_already_formatted_is_a_fixed_point() {
        let formatted = "(define (foo x)\n  (bar x))\n";
        assert_eq!(fmt(formatted), formatted);
    }
