use lisplens::config::FormatConfig;
use lisplens::reader::Dialect;

    /// Reindent flat Common Lisp and compare to Emacs's canonical output
    /// (captured from `lisp-mode` with `lisp-indent-function` =
    /// `common-lisp-indent-function`, `indent-tabs-mode` nil). Covers the forms
    /// that diverge from the Emacs Lisp engine: `defun`/`&body`, `let` bindings,
    /// `case`/`cond` clause alignment, CL `if` (then/else equal), nested `flet`,
    /// `handler-case`, `destructuring-bind`, and backquote-as-code.
    #[test]
    fn commonlisp_matches_emacs_on_common_forms() {
        let input = "\
(defun foo (x)
(bar x)
(baz x))
(let ((a 1)
(b 2))
(+ a b))
(case x
(1 one)
(2 two))
(cond ((evenp x)
(foo))
((oddp x)
(bar)))
(if test
then
else)
(flet ((sq (n)
(* n n)))
(sq 3))
(handler-case
(risky)
(error (e)
(report e)))
(destructuring-bind (a b)
lst
(list a b))
(defmacro my-when (test &body body)
`(if ,test
(progn ,@body)))
";
        let expected = "\
(defun foo (x)
  (bar x)
  (baz x))
(let ((a 1)
      (b 2))
  (+ a b))
(case x
  (1 one)
  (2 two))
(cond ((evenp x)
       (foo))
      ((oddp x)
       (bar)))
(if test
    then
    else)
(flet ((sq (n)
         (* n n)))
  (sq 3))
(handler-case
    (risky)
  (error (e)
    (report e)))
(destructuring-bind (a b)
    lst
  (list a b))
(defmacro my-when (test &body body)
  `(if ,test
       (progn ,@body)))
";
        let out = lisplens::format::format(input, &FormatConfig::default(), Dialect::CommonLisp);
        assert_eq!(out, expected);
    }

    /// The specialised methods: simple vs extended `loop`, `do` clauses,
    /// `dolist`, backquote substitution body alignment with a package-qualified
    /// head (`cl:defconstant` → `defconstant`, `(4 2 2)`), and lambda-list
    /// keyword-parameter alignment (`&key` continuation at keyword + 2). Golden
    /// captured from Emacs.
    #[test]
    fn matches_emacs_on_specialised_forms() {
        let input = "\
(loop for i from 1 to 10
collect i
when (evenp i)
do (print i))
(do ((i 0 (1+ i)))
((= i 10))
(process i))
(dolist (x items)
(print x))
`(cl:defconstant ,name
,value
,@(when doc (list doc)))
(defun create (regex &key case-insensitive
multi-line
extended)
(scan regex))
";
        let expected = "\
(loop for i from 1 to 10
      collect i
      when (evenp i)
      do (print i))
(do ((i 0 (1+ i)))
    ((= i 10))
  (process i))
(dolist (x items)
  (print x))
`(cl:defconstant ,name
   ,value
   ,@(when doc (list doc)))
(defun create (regex &key case-insensitive
                       multi-line
                       extended)
  (scan regex))
";
        let out = lisplens::format::format(input, &FormatConfig::default(), Dialect::CommonLisp);
        assert_eq!(out, expected);
    }

    /// A `defmethod` with a qualifier (`:after`) indents its lambda list and body
    /// by `lisp-indent-defmethod`; a bare `defmethod` indents like `defun`. This
    /// output matches a real Emacs on a properly-structured file — the body at
    /// `defun` depth, `&allow-other-keys` at its keyword + 2. (Emacs's *flat*
    /// reindent disagrees only because `lisp-indent-defmethod`'s
    /// `beginning-of-defun` mis-scans fully de-indented input; see the harness
    /// note in `docs/dev/formatter.md`.)
    #[test]
    fn defmethod_is_a_fixed_point() {
        let formatted = "\
(defmethod initialize-instance :after ((data data) &key streamspec
                                                     &allow-other-keys)
  (let ((c-data 1))
    (foo c-data)))
(defmethod print-object ((x point) stream)
  (princ x stream))
";
        let out = lisplens::format::format(formatted, &FormatConfig::default(), Dialect::CommonLisp);
        assert_eq!(out, formatted);
    }

    /// The Common Lisp engine only rewrites leading whitespace, so an
    /// already-formatted file is a fixed point.
    #[test]
    fn commonlisp_already_formatted_is_a_fixed_point() {
        let formatted = "(defun foo (x)\n  (bar x))\n";
        let out = lisplens::format::format(formatted, &FormatConfig::default(), Dialect::CommonLisp);
        assert_eq!(out, formatted);
    }
