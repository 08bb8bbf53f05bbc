//! Common Lisp indentation as Emacs's `common-lisp-indent-function`
//! (`cl-indent.el`) computes it: the style `lisp-mode` uses for Common Lisp.
//!
//! Where `lisp-indent-function` looks only at the innermost containing list,
//! this walks up to three levels out, building a path of how far into each
//! level the line is, and drives a small spec language (nil, integers,
//! `&lambda`, `&rest`, `&body`, `&whole`, destructuring sublists and named
//! methods) from a bundled table. The normal indent it falls back on is the
//! full `calculate-lisp-indent` column.

use vstd::prelude::*;

use super::{col, col_exec, contains, count_ended, count_ended_exec, first_containing, first_containing_exec, first_on_line, last_ended, lemma_first_containing, lemma_first_on_line_is, line_at, line_at_exec, sat, Env, Frame};
use crate::reader::{Node, Shape};
use crate::text::{chars_of, eq_lit, has_prefix_at, is_whitespace, is_ws, slice_range, starts_with_at};

verus! {

/// A named indent method of `cl-indent.el`.
#[derive(Debug, Clone, Copy, PartialEq, Eq, Structural)]
pub enum Named {
    /// `lisp-indent-tagbody`.
    Tagbody,
    /// `lisp-indent-do`.
    Do,
    /// `lisp-indent-defmethod`.
    Defmethod,
    /// `lisp-indent-function-lambda-hack`.
    LambdaHack,
}

/// One element of a list-valued indent method.
pub enum Elem {
    /// nil: the normal indent for this argument.
    Nil,
    /// A column offset from the containing form.
    Int(i64),
    /// `&lambda`: a lambda list.
    Lambda,
    /// `&rest`: the next element applies to all remaining arguments.
    Rest,
    /// `&body`: `&rest` with the body indent.
    Body,
    /// `&whole`, leading a destructuring sublist.
    Whole,
    /// A named method.
    Fn(Named),
    /// A destructuring sublist, applied when the argument is a list.
    List(Vec<Elem>),
}

/// [`Elem`] as the model sees it.
pub enum ElemS {
    Nil,
    Int(int),
    Lambda,
    Rest,
    Body,
    Whole,
    Fn(Named),
    List(Seq<ElemS>),
}

pub open spec fn elem_view(e: Elem) -> ElemS
    decreases e, 1int,
{
    match e {
        Elem::Nil => ElemS::Nil,
        Elem::Int(k) => ElemS::Int(k as int),
        Elem::Lambda => ElemS::Lambda,
        Elem::Rest => ElemS::Rest,
        Elem::Body => ElemS::Body,
        Elem::Whole => ElemS::Whole,
        Elem::Fn(n) => ElemS::Fn(n),
        Elem::List(v) => ElemS::List(elems_view(v@, v@.len() as int)),
    }
}

/// The model of the first `k` elements of `s`.
pub open spec fn elems_view(s: Seq<Elem>, k: int) -> Seq<ElemS>
    decreases s, k,
{
    if k <= 0 || k > s.len() {
        Seq::empty()
    } else {
        elems_view(s, k - 1).push(elem_view(s[k - 1]))
    }
}

/// A symbol's `common-lisp-indent-function` property.
pub enum Method {
    /// An integer N: the first N arguments distinguished, then a body.
    Int(int),
    /// A named method.
    Fn(Named),
    /// A list spec, walked by `lisp-indent-259`.
    List(Seq<ElemS>),
}

// --- The bundled table ----------------------------------------------------------

/// The shapes of the methods in the bundled table.
#[derive(Debug, Clone, Copy, PartialEq, Eq, Structural)]
pub enum Key {
    Int0,
    Int1,
    Int2,
    Case,
    Cond,
    Defvar,
    Defcustom,
    Defclass,
    LambdaBody,
    Defsetf,
    Defun,
    FourTwo,
    Defstruct,
    Bind,
    Dolist,
    Flet,
    HandlerCase,
    If,
    Lambda,
    Let,
    FourBody,
    PrintUnreadable,
    Prog,
    Progv,
    ReturnFrom,
    UnwindProtect,
    Two,
    Defmethod,
    Do,
    Tagbody,
}

pub open spec fn w2r1() -> ElemS {
    ElemS::List(seq![ElemS::Whole, ElemS::Int(2), ElemS::Rest, ElemS::Int(1)])
}

/// `lisp-indent-defun-method`, `(4 &lambda &body)`.
pub open spec fn defun_method() -> Seq<ElemS> {
    seq![ElemS::Int(4), ElemS::Lambda, ElemS::Body]
}

/// The method each shape stands for.
pub open spec fn method_of(k: Key) -> Method {
    match k {
        Key::Int0 => Method::Int(0),
        Key::Int1 => Method::Int(1),
        Key::Int2 => Method::Int(2),
        Key::Case => Method::List(seq![ElemS::Int(4), ElemS::Rest, w2r1()]),
        Key::Cond => Method::List(seq![ElemS::Rest, w2r1()]),
        Key::Defvar => Method::List(seq![ElemS::Int(4), ElemS::Int(2), ElemS::Int(2)]),
        Key::Defcustom => Method::List(seq![ElemS::Int(4), ElemS::Int(2), ElemS::Int(2), ElemS::Int(2)]),
        Key::Defclass => Method::List(seq![ElemS::Int(6), ElemS::Int(4), w2r1(), w2r1()]),
        Key::LambdaBody => Method::List(seq![ElemS::Lambda, ElemS::Body]),
        Key::Defsetf => Method::List(seq![ElemS::Int(4), ElemS::Lambda, ElemS::Int(4), ElemS::Body]),
        Key::Defun => Method::List(defun_method()),
        Key::FourTwo => Method::List(seq![ElemS::Int(4), ElemS::Int(2)]),
        Key::Defstruct => Method::List(
            seq![ElemS::List(seq![ElemS::Whole, ElemS::Int(4), ElemS::Rest, w2r1()]), ElemS::Rest, w2r1()],
        ),
        Key::Bind => Method::List(
            seq![ElemS::List(seq![ElemS::Whole, ElemS::Int(6), ElemS::Rest, ElemS::Int(1)]), ElemS::Int(4), ElemS::Body],
        ),
        Key::Dolist => Method::List(
            seq![ElemS::List(seq![ElemS::Whole, ElemS::Int(4), ElemS::Int(2), ElemS::Int(1)]), ElemS::Body],
        ),
        Key::Flet => Method::List(
            seq![
                ElemS::List(
                    seq![
                        ElemS::Whole,
                        ElemS::Int(4),
                        ElemS::Rest,
                        ElemS::List(seq![ElemS::Whole, ElemS::Int(1), ElemS::Lambda, ElemS::Body]),
                    ],
                ),
                ElemS::Body,
            ],
        ),
        Key::HandlerCase => Method::List(
            seq![
                ElemS::Int(4),
                ElemS::Rest,
                ElemS::List(seq![ElemS::Whole, ElemS::Int(2), ElemS::Lambda, ElemS::Body]),
            ],
        ),
        Key::If => Method::List(seq![ElemS::Rest, ElemS::Nil]),
        Key::Lambda => Method::List(seq![ElemS::Lambda, ElemS::Rest, ElemS::Fn(Named::LambdaHack)]),
        Key::Let => Method::List(
            seq![
                ElemS::List(
                    seq![
                        ElemS::Whole,
                        ElemS::Int(4),
                        ElemS::Rest,
                        ElemS::List(seq![ElemS::Whole, ElemS::Int(1), ElemS::Int(1), ElemS::Int(2)]),
                    ],
                ),
                ElemS::Body,
            ],
        ),
        Key::FourBody => Method::List(seq![ElemS::Int(4), ElemS::Body]),
        Key::PrintUnreadable => Method::List(
            seq![
                ElemS::List(seq![ElemS::Whole, ElemS::Int(4), ElemS::Int(1), ElemS::Rest, ElemS::Int(1)]),
                ElemS::Body,
            ],
        ),
        Key::Prog => Method::List(seq![ElemS::Lambda, ElemS::Rest, ElemS::Fn(Named::Tagbody)]),
        Key::Progv => Method::List(seq![ElemS::Int(4), ElemS::Int(4), ElemS::Body]),
        Key::ReturnFrom => Method::List(seq![ElemS::Nil, ElemS::Body]),
        Key::UnwindProtect => Method::List(seq![ElemS::Int(5), ElemS::Body]),
        Key::Two => Method::List(seq![ElemS::Int(2)]),
        Key::Defmethod => Method::Fn(Named::Defmethod),
        Key::Do => Method::Fn(Named::Do),
        Key::Tagbody => Method::Fn(Named::Tagbody),
    }
}


/// The shape of the `common-lisp-indent-function` property of the
/// (case-folded) name `h` in the bundled table: `cl-indent.el`'s alist with
/// its aliases resolved (`None` when unlisted).
pub open spec fn key_of(h: Seq<char>) -> Option<Key> {
    if h == "block"@ || h == "catch"@ || h == "eval-when"@ || h == "locally"@ || h == "multiple-value-prog1"@ || h == "prog1"@ || h == "throw"@ || h == "unless"@ || h == "when"@ {
        Some(Key::Int1)
    } else if h == "prog2"@ {
        Some(Key::Int2)
    } else if h == "progn"@ || h == "return"@ {
        Some(Key::Int0)
    } else if h == "case"@ || h == "ccase"@ || h == "ecase"@ || h == "typecase"@ || h == "etypecase"@ || h == "ctypecase"@ {
        Some(Key::Case)
    } else if h == "cond"@ {
        Some(Key::Cond)
    } else if h == "defvar"@ || h == "defconstant"@ || h == "defparameter"@ {
        Some(Key::Defvar)
    } else if h == "defcustom"@ || h == "defconst"@ {
        Some(Key::Defcustom)
    } else if h == "defclass"@ || h == "define-condition"@ {
        Some(Key::Defclass)
    } else if h == "define-modify-macro"@ || h == "with-compilation-unit"@ || h == ":method"@ {
        Some(Key::LambdaBody)
    } else if h == "defsetf"@ {
        Some(Key::Defsetf)
    } else if h == "defun"@ || h == "defgeneric"@ || h == "define-setf-method"@ || h == "define-setf-expander"@ || h == "defmacro"@ || h == "defsubst"@ || h == "deftype"@ {
        Some(Key::Defun)
    } else if h == "defpackage"@ || h == "multiple-value-setq"@ || h == "multiple-value-setf"@ || h == "pprint-logical-block"@ || h == "with-output-to-string"@ {
        Some(Key::FourTwo)
    } else if h == "defstruct"@ {
        Some(Key::Defstruct)
    } else if h == "destructuring-bind"@ || h == "multiple-value-bind"@ || h == "with-accessors"@ || h == "with-condition-restarts"@ || h == "with-slots"@ {
        Some(Key::Bind)
    } else if h == "dolist"@ || h == "dotimes"@ {
        Some(Key::Dolist)
    } else if h == "flet"@ || h == "labels"@ || h == "macrolet"@ || h == "generic-flet"@ || h == "generic-labels"@ {
        Some(Key::Flet)
    } else if h == "handler-case"@ || h == "restart-case"@ {
        Some(Key::HandlerCase)
    } else if h == "if"@ {
        Some(Key::If)
    } else if h == "lambda"@ {
        Some(Key::Lambda)
    } else if h == "let"@ || h == "let*"@ || h == "compiler-let"@ || h == "handler-bind"@ || h == "restart-bind"@ || h == "symbol-macrolet"@ {
        Some(Key::Let)
    } else if h == "multiple-value-call"@ {
        Some(Key::FourBody)
    } else if h == "print-unreadable-object"@ {
        Some(Key::PrintUnreadable)
    } else if h == "prog"@ || h == "prog*"@ {
        Some(Key::Prog)
    } else if h == "progv"@ {
        Some(Key::Progv)
    } else if h == "return-from"@ {
        Some(Key::ReturnFrom)
    } else if h == "unwind-protect"@ {
        Some(Key::UnwindProtect)
    } else if h == "with-standard-io-syntax"@ {
        Some(Key::Two)
    } else if h == "defmethod"@ {
        Some(Key::Defmethod)
    } else if h == "do"@ || h == "do*"@ {
        Some(Key::Do)
    } else if h == "tagbody"@ {
        Some(Key::Tagbody)
    } else {
        None
    }
}

fn key_of_exec(h: &[char]) -> (r: Option<Key>)
    ensures
        r == key_of(h@),
{
    if eq_lit(h, "block") || eq_lit(h, "catch") || eq_lit(h, "eval-when") || eq_lit(h, "locally") || eq_lit(h, "multiple-value-prog1") || eq_lit(h, "prog1") || eq_lit(h, "throw") || eq_lit(h, "unless") || eq_lit(h, "when") {
        Some(Key::Int1)
    } else if eq_lit(h, "prog2") {
        Some(Key::Int2)
    } else if eq_lit(h, "progn") || eq_lit(h, "return") {
        Some(Key::Int0)
    } else if eq_lit(h, "case") || eq_lit(h, "ccase") || eq_lit(h, "ecase") || eq_lit(h, "typecase") || eq_lit(h, "etypecase") || eq_lit(h, "ctypecase") {
        Some(Key::Case)
    } else if eq_lit(h, "cond") {
        Some(Key::Cond)
    } else if eq_lit(h, "defvar") || eq_lit(h, "defconstant") || eq_lit(h, "defparameter") {
        Some(Key::Defvar)
    } else if eq_lit(h, "defcustom") || eq_lit(h, "defconst") {
        Some(Key::Defcustom)
    } else if eq_lit(h, "defclass") || eq_lit(h, "define-condition") {
        Some(Key::Defclass)
    } else if eq_lit(h, "define-modify-macro") || eq_lit(h, "with-compilation-unit") || eq_lit(h, ":method") {
        Some(Key::LambdaBody)
    } else if eq_lit(h, "defsetf") {
        Some(Key::Defsetf)
    } else if eq_lit(h, "defun") || eq_lit(h, "defgeneric") || eq_lit(h, "define-setf-method") || eq_lit(h, "define-setf-expander") || eq_lit(h, "defmacro") || eq_lit(h, "defsubst") || eq_lit(h, "deftype") {
        Some(Key::Defun)
    } else if eq_lit(h, "defpackage") || eq_lit(h, "multiple-value-setq") || eq_lit(h, "multiple-value-setf") || eq_lit(h, "pprint-logical-block") || eq_lit(h, "with-output-to-string") {
        Some(Key::FourTwo)
    } else if eq_lit(h, "defstruct") {
        Some(Key::Defstruct)
    } else if eq_lit(h, "destructuring-bind") || eq_lit(h, "multiple-value-bind") || eq_lit(h, "with-accessors") || eq_lit(h, "with-condition-restarts") || eq_lit(h, "with-slots") {
        Some(Key::Bind)
    } else if eq_lit(h, "dolist") || eq_lit(h, "dotimes") {
        Some(Key::Dolist)
    } else if eq_lit(h, "flet") || eq_lit(h, "labels") || eq_lit(h, "macrolet") || eq_lit(h, "generic-flet") || eq_lit(h, "generic-labels") {
        Some(Key::Flet)
    } else if eq_lit(h, "handler-case") || eq_lit(h, "restart-case") {
        Some(Key::HandlerCase)
    } else if eq_lit(h, "if") {
        Some(Key::If)
    } else if eq_lit(h, "lambda") {
        Some(Key::Lambda)
    } else if eq_lit(h, "let") || eq_lit(h, "let*") || eq_lit(h, "compiler-let") || eq_lit(h, "handler-bind") || eq_lit(h, "restart-bind") || eq_lit(h, "symbol-macrolet") {
        Some(Key::Let)
    } else if eq_lit(h, "multiple-value-call") {
        Some(Key::FourBody)
    } else if eq_lit(h, "print-unreadable-object") {
        Some(Key::PrintUnreadable)
    } else if eq_lit(h, "prog") || eq_lit(h, "prog*") {
        Some(Key::Prog)
    } else if eq_lit(h, "progv") {
        Some(Key::Progv)
    } else if eq_lit(h, "return-from") {
        Some(Key::ReturnFrom)
    } else if eq_lit(h, "unwind-protect") {
        Some(Key::UnwindProtect)
    } else if eq_lit(h, "with-standard-io-syntax") {
        Some(Key::Two)
    } else if eq_lit(h, "defmethod") {
        Some(Key::Defmethod)
    } else if eq_lit(h, "do") || eq_lit(h, "do*") {
        Some(Key::Do)
    } else if eq_lit(h, "tagbody") {
        Some(Key::Tagbody)
    } else {
        None
    }
}


// --- Outside calls ----------------------------------------------------------------

/// What `str::to_lowercase` returns for `s` (full Unicode case mapping).
pub uninterp spec fn lowercase(s: Seq<char>) -> Seq<char>;

/// `str::to_lowercase`. The contract names the result; the case mapping
/// itself is std's.
#[verifier::external_body]
fn to_lowercase(s: &str) -> (r: String)
    ensures
        r@ == lowercase(s@),
{
    s.to_lowercase()
}

// --- Reading around a line -------------------------------------------------------

/// The character just before offset `i` of `src`.
pub open spec fn char_before(src: Seq<char>, i: int) -> Option<char> {
    if 1 <= i <= src.len() {
        Some(src[i - 1])
    } else {
        None
    }
}

/// `'(…)`: a quoted list (indented as data), and not `#'(…)`.
pub open spec fn is_quote_data(src: Seq<char>, open: int) -> bool {
    char_before(src, open) == Some('\'') && char_before(src, open - 1) != Some('#')
}

/// `,(…)` or `,@(…)`: a backquote substitution.
pub open spec fn is_comma_subst(src: Seq<char>, open: int) -> bool {
    char_before(src, open) == Some(',') || (char_before(src, open) == Some('@') && char_before(src, open - 1)
        == Some(','))
}

/// `#(…)`: a reader-macro list.
pub open spec fn is_hash(src: Seq<char>, open: int) -> bool {
    char_before(src, open) == Some('#')
}

/// The first offset at or after `i` that is not whitespace or is a newline
/// (or `src.len()`).
pub open spec fn first_nonws(src: Seq<char>, i: int) -> int
    decreases src.len() - i,
{
    if i < 0 || i >= src.len() {
        src.len() as int
    } else if src[i] == '\n' || !is_ws(src[i]) {
        i
    } else {
        first_nonws(src, i + 1)
    }
}

/// The first non-whitespace character of the line starting at `off`.
pub open spec fn line_first(src: Seq<char>, off: int) -> Option<char> {
    let j = first_nonws(src, off);
    if 0 <= j < src.len() && src[j] != '\n' {
        Some(src[j])
    } else {
        None
    }
}

/// Whether the line at `off` opens with a `tagbody` tag rather than a form.
pub open spec fn line_starts_with_tag(src: Seq<char>, off: int) -> bool {
    match line_first(src, off) {
        Some(c) => !(c == '(' || c == ')' || c == '"' || c == '\'' || c == '`' || c == ',' || c == ';'
            || c == '#'),
        None => false,
    }
}

/// Whether the (case-folded) `name` is a lambda-list keyword.
pub open spec fn ll_keyword_name(name: Seq<char>) -> bool {
    let l = lowercase(name);
    l == "&optional"@ || l == "&rest"@ || l == "&key"@ || l == "&body"@ || l == "&whole"@ || l == "&aux"@
        || l == "&environment"@ || l == "&allow-other-keys"@
}

/// Whether `d` is a lambda-list keyword symbol.
pub open spec fn is_ll_keyword(d: Node) -> bool {
    d.shape == Shape::Symbol && ll_keyword_name(d.key@)
}

/// The end of the token starting at `i`: the first whitespace, `(` or `)`.
pub open spec fn token_end(src: Seq<char>, i: int) -> int
    decreases src.len() - i,
{
    if i < 0 || i >= src.len() {
        src.len() as int
    } else if is_ws(src[i]) || src[i] == '(' || src[i] == ')' {
        i
    } else {
        token_end(src, i + 1)
    }
}

/// Whether the line at `off` opens with a lambda-list keyword token (one
/// followed by whitespace or the end of the line).
pub open spec fn line_faces_ll_keyword(src: Seq<char>, off: int) -> bool {
    let a = first_nonws(src, off);
    if !(0 <= a < src.len()) || src[a] != '&' {
        false
    } else {
        let b = token_end(src, a);
        ll_keyword_name(src.subrange(a, b)) && (b >= src.len() || is_ws(src[b]))
    }
}

// --- Names ------------------------------------------------------------------------

/// The case-folded name of a list's head symbol or keyword.
pub open spec fn head_name(items: Seq<Node>) -> Option<Seq<char>> {
    if items.len() > 0 && (items[0].shape == Shape::Symbol || items[0].shape == Shape::Keyword) {
        Some(lowercase(items[0].key@))
    } else {
        None
    }
}

/// The first `:` at or after `i` not followed by another `:` (or
/// `name.len()`).
pub open spec fn pkg_colon(name: Seq<char>, i: int) -> int
    decreases name.len() - i,
{
    if i < 0 || i >= name.len() {
        name.len() as int
    } else if name[i] == ':' && !(i + 1 < name.len() && name[i + 1] == ':') {
        i
    } else {
        pkg_colon(name, i + 1)
    }
}

/// `name` without its package prefix (`cl:defconstant` gives
/// `defconstant`), when it has one.
pub open spec fn strip_pkg(name: Seq<char>) -> Option<Seq<char>> {
    let c = pkg_colon(name, 0);
    if c >= name.len() {
        None
    } else {
        let rest = name.subrange(c + 1, name.len() as int);
        if rest.len() == 0 || rest[0] == ':' {
            None
        } else {
            Some(rest)
        }
    }
}

/// Whether `name` begins with `with-`, `without-` or `do-`.
pub open spec fn with_or_do(name: Seq<char>) -> bool {
    has_prefix_at(name, 0, "with-"@) || has_prefix_at(name, 0, "without-"@) || has_prefix_at(name, 0, "do-"@)
}

/// Whether a list's head is `function` (possibly package-qualified).
pub open spec fn head_is_function(items: Seq<Node>) -> bool {
    match head_name(items) {
        Some(n) => n == "function"@ || (n.len() >= 9 && n.subrange(n.len() - 9, n.len() as int)
            == ":function"@),
        None => false,
    }
}

// --- The levels the walk goes through ----------------------------------------------

/// The lists strictly holding `off` among `data`, outermost first: list
/// elements (or, when none holds it, the dotted tail), through reader
/// macros to the datum they apply to.
pub open spec fn chain_at(data: Seq<Node>, off: int) -> Seq<Node>
    decreases data, 0nat,
{
    match first_containing(data, off, 0) {
        Some(k) => {
            proof {
                lemma_first_containing(data, off, 0);
            }
            chain_in(data[k], off)
        },
        None => Seq::empty(),
    }
}

pub open spec fn chain_one(n: Node, off: int) -> Seq<Node>
    decreases n, 1nat,
{
    if contains(n, off) {
        chain_in(n, off)
    } else {
        Seq::empty()
    }
}

pub open spec fn chain_in(n: Node, off: int) -> Seq<Node>
    decreases n, 0nat,
{
    match n.shape {
        Shape::List => {
            let inner = chain_at(n.items@, off);
            seq![n] + if inner.len() == 0 {
                match n.tail {
                    Some(t) => chain_one(*t, off),
                    None => Seq::empty(),
                }
            } else {
                inner
            }
        },
        Shape::Prefixed => match n.inner {
            Some(i) => chain_one(*i, off),
            None => Seq::empty(),
        },
        _ => Seq::empty(),
    }
}

// --- The method walker ---------------------------------------------------------------

/// What one line's indentation reads: the innermost list's column, the
/// normal indent, the body indent, the line's start and the innermost list.
pub struct Cx {
    pub sexp: int,
    pub normal: int,
    pub body: int,
    pub off: int,
    pub inner: Node,
}

/// The last of `items[..k]` that ends at or before `off` and is a
/// lambda-list keyword (`-1` when none is).
pub open spec fn last_ll_keyword(items: Seq<Node>, off: int, k: int) -> int
    decreases k,
{
    if k <= 0 || k > items.len() {
        -1
    } else if items[k - 1].end <= off && is_ll_keyword(items[k - 1]) {
        k - 1
    } else {
        last_ll_keyword(items, off, k - 1)
    }
}

/// `lisp-indent-lambda-list`: a line opening with a lambda-list keyword, or
/// one with no keyword before it, aligns under the first parameter; else two
/// past the last keyword.
pub open spec fn lambda_list_indent(e: Env, ni: Seq<usize>, cx: Cx) -> int {
    let items = cx.inner.items@;
    if cx.inner.shape != Shape::List || line_faces_ll_keyword(e.src, cx.off) {
        cx.sexp + 1
    } else {
        let k = last_ll_keyword(items, cx.off, items.len() as int);
        if k >= 0 {
            col(e, ni, items[k].start as int) + 2
        } else {
            cx.sexp + 1
        }
    }
}

/// `lisp-indent-tagbody`: a tag one past the list, anything else `tag_body`
/// past it.
pub open spec fn tagbody_indent(e: Env, cx: Cx, path: Seq<int>, tag_body: int) -> int {
    if path.len() > 1 {
        cx.normal
    } else if line_starts_with_tag(e.src, cx.off) {
        cx.sexp + 1
    } else {
        cx.sexp + tag_body
    }
}

/// The spec `lisp-indent-do` gives its step and end-test clauses.
pub open spec fn do_method() -> Seq<ElemS> {
    seq![
        ElemS::List(seq![ElemS::Whole, ElemS::Nil, ElemS::Rest]),
        ElemS::List(seq![ElemS::Whole, ElemS::Nil, ElemS::Rest, ElemS::Int(1)]),
    ]
}

/// How many consecutive symbols or keywords start at `items[i]`.
pub open spec fn quals(items: Seq<Node>, i: int) -> nat
    decreases items.len() - i,
{
    if i < 0 || i >= items.len() || !(items[i].shape == Shape::Symbol || items[i].shape == Shape::Keyword) {
        0
    } else {
        1 + quals(items, i + 1)
    }
}

/// `lisp-indent-defmethod`'s spec: with method qualifiers before the lambda
/// list, one `4` per qualifier after the name's; else `defun`'s.
pub open spec fn defmethod_method(level: Node, path: Seq<int>) -> Seq<ElemS> {
    let nq = if level.shape == Shape::List {
        quals(level.items@, 2)
    } else {
        0
    };
    if path.len() > 0 && path[0] >= 3 && nq > 0 {
        seq![ElemS::Int(4)] + Seq::new(nq, |i: int| ElemS::Int(4)) + seq![ElemS::Lambda, ElemS::Body]
    } else {
        defun_method()
    }
}

/// `lisp-indent-function-lambda-hack`: a `lambda` directly inside
/// `(function …)` lines its body up under `function` less one; otherwise one
/// body step past the list.
pub open spec fn lambda_hack_indent(e: Env, ni: Seq<usize>, cx: Cx, parent: Option<Node>, path: Seq<int>) -> int {
    if path.len() > 1 || (path.len() > 0 && path[0] > 3) {
        cx.normal
    } else {
        match parent {
            Some(pn) => if pn.shape == Shape::List && head_is_function(pn.items@) {
                cx.body - 1 + col(e, ni, pn.items@[0].start as int)
            } else {
                cx.sexp + cx.body
            },
            None => cx.sexp + cx.body,
        }
    }
}

/// A named method.
pub open spec fn call_named(e: Env, ni: Seq<usize>, cx: Cx, level: Node, parent: Option<Node>, path: Seq<int>, fuel: nat, nm: Named) -> int
    decreases fuel, 0int, 0int,
{
    match nm {
        Named::Tagbody => tagbody_indent(e, cx, path, 3),
        Named::Do => if path.len() > 0 && path[0] >= 3 {
            tagbody_indent(e, cx, path, cx.body)
        } else if fuel == 0 {
            cx.normal
        } else {
            l259(e, ni, cx, level, parent, path, (fuel - 1) as nat, do_method(), path)
        },
        Named::Defmethod => if fuel == 0 {
            cx.normal
        } else {
            l259(e, ni, cx, level, parent, path, (fuel - 1) as nat, defmethod_method(level, path), path)
        },
        Named::LambdaHack => lambda_hack_indent(e, ni, cx, parent, path),
    }
}

/// `lisp-indent-259`: walk the method `m` guided by the path `p`.
pub open spec fn l259(e: Env, ni: Seq<usize>, cx: Cx, level: Node, parent: Option<Node>, path: Seq<int>, fuel: nat, m: Seq<ElemS>, p: Seq<int>) -> int
    decreases fuel, p.len(), 0int,
{
    if p.len() == 0 {
        cx.normal
    } else {
        walk(e, ni, cx, level, parent, path, fuel, m, p.drop_first(), p[0] - 1, false)
    }
}

/// One step of `lisp-indent-259`: `n` more arguments to skip at this depth
/// before the one the line is in, the path still to descend, and whether a
/// `&rest` is in force.
pub open spec fn walk(
    e: Env,
    ni: Seq<usize>,
    cx: Cx,
    level: Node,
    parent: Option<Node>,
    path: Seq<int>,
    fuel: nat,
    m: Seq<ElemS>,
    p: Seq<int>,
    n: int,
    tail: bool,
) -> int
    decreases fuel, p.len(), m.len(),
{
    if m.len() == 0 {
        cx.normal
    } else {
        let tem = m[0];
        if tail && !(tem is List || tem is Fn) {
            cx.normal
        } else if tem is Body {
            if n == 0 && p.len() == 0 {
                cx.sexp + cx.body
            } else {
                cx.normal
            }
        } else if tem is Rest {
            walk(e, ni, cx, level, parent, path, fuel, m.drop_first(), p, 0, n > 0)
        } else if n > 0 {
            walk(e, ni, cx, level, parent, path, fuel, m.drop_first(), p, n - 1, tail)
        } else {
            match tem {
                ElemS::Lambda => if p.len() == 0 {
                    cx.sexp + 4
                } else if p.len() == 1 {
                    lambda_list_indent(e, ni, cx)
                } else {
                    cx.normal
                },
                ElemS::Int(k) => if p.len() == 0 {
                    cx.sexp + k
                } else {
                    cx.normal
                },
                ElemS::Fn(nm) => call_named(e, ni, cx, level, parent, path, fuel, nm),
                ElemS::List(sub) => if p.len() > 0 {
                    walk(
                        e,
                        ni,
                        cx,
                        level,
                        parent,
                        path,
                        fuel,
                        if sub.len() >= 2 {
                            sub.subrange(2, sub.len() as int)
                        } else {
                            Seq::empty()
                        },
                        p.drop_first(),
                        p[0] - 1,
                        false,
                    )
                } else if tail || sub.len() < 2 {
                    cx.normal
                } else {
                    match sub[1] {
                        ElemS::Int(k) => cx.sexp + k,
                        ElemS::Fn(nm) => call_named(e, ni, cx, level, parent, path, fuel, nm),
                        _ => cx.normal,
                    }
                },
                _ => cx.normal,
            }
        }
    }
}

/// An integer method N: the first N arguments at four past the list, the
/// first body form one body step past it, the rest at the normal indent.
pub open spec fn integer_method(m: int, path: Seq<int>, sexp: int, normal: int, body: int) -> int {
    if path.len() != 1 {
        normal
    } else if path[0] <= m {
        sexp + 4
    } else if path[0] == m + 1 {
        sexp + body
    } else {
        normal
    }
}

// --- The line's indent -------------------------------------------------------------

/// `calculate-lisp-indent`'s normal indent: one past the open paren before
/// any element is done; under a leading list; under the first argument (or
/// the head, with whitespace after the paren or only the head done) while
/// the last done element is on the head's line; else under the first
/// element on the last done element's line.
pub open spec fn cl_normal(e: Env, ni: Seq<usize>, inner: Node, off: int) -> int {
    if inner.shape != Shape::List {
        col(e, ni, inner.start as int) + 1
    } else {
        let items = inner.items@;
        let open_col = col(e, ni, inner.start as int);
        let li = last_ended(items, off, items.len() as int);
        if li < 0 || items.len() == 0 {
            open_col + 1
        } else {
            let first = items[0];
            let last = items[li];
            if first.shape == Shape::List {
                col(e, ni, first.start as int)
            } else if line_at(e, last.start as int) == line_at(e, first.start as int) {
                if first.start > inner.start + 1 || first.start == last.start || items.len() < 2 {
                    col(e, ni, first.start as int)
                } else {
                    col(e, ni, items[1].start as int)
                }
            } else {
                let q = first_on_line(e, items, line_at(e, last.start as int), items.len() as int);
                col(e, ni, if q >= 0 { items[q].start as int } else { last.start as int })
            }
        }
    }
}

/// Whether a list is a `loop` (or `cl-loop`) form.
pub open spec fn is_loop_form(n: Node) -> bool {
    n.shape == Shape::List && (head_name(n.items@) == Some("loop"@) || head_name(n.items@) == Some("cl-loop"@))
}

/// `common-lisp-loop-part-indentation`: a simple loop's forms one past it;
/// an extended loop's clauses (keywords and forms alike) six past it.
pub open spec fn loop_indent(e: Env, ni: Seq<usize>, n: Node) -> int {
    let lc = col(e, ni, n.start as int);
    let items = n.items@;
    if items.len() > 1 && (items[1].shape == Shape::Symbol || items[1].shape == Shape::Keyword) {
        lc + 6
    } else {
        lc + 1
    }
}

/// The method a level's (case-folded) head name carries, after trying the
/// name without its package prefix, and the name the heuristics then see.
pub open spec fn level_method(f0: Option<Seq<char>>) -> (Option<Seq<char>>, Option<Key>) {
    let k0 = match f0 {
        Some(h) => key_of(h),
        None => None,
    };
    let stripped = match f0 {
        Some(h) => strip_pkg(h),
        None => None,
    };
    if k0 is None && stripped is Some {
        (stripped, key_of(stripped->0))
    } else {
        (f0, k0)
    }
}

/// `common-lisp-indent-function-1`'s walk out from the innermost list:
/// `chain[i]` is the next level out, `path` how far into each level already
/// passed the line is, `tentative` a tentative indent and `normal` the
/// normal indent so far. The first level whose head carries a method
/// decides; a quoted list or `#(…)` indents as data; a backquote
/// substitution stops the walk; a `def…` head with no method (innermost
/// level only) gives a tentative `defun` indent, and a `with-`/`without-`/
/// `do-` head `(&lambda &body)`. At most three levels are looked at.
pub open spec fn cl_levels(
    e: Env,
    ni: Seq<usize>,
    chain: Seq<Node>,
    i: int,
    sexp: int,
    inner: Node,
    off: int,
    body: int,
    path: Seq<int>,
    tentative: Option<int>,
    normal: int,
) -> int
    decreases i + 1,
{
    if i < 0 || i >= chain.len() || path.len() >= 3 {
        match tentative {
            Some(t) => t,
            None => normal,
        }
    } else {
        let level = chain[i];
        let parent = if i > 0 {
            Some(chain[i - 1])
        } else {
            None
        };
        if level.shape != Shape::List {
            cl_levels(e, ni, chain, i - 1, sexp, inner, off, body, path, tentative, normal)
        } else {
            let items = level.items@;
            let path2 = seq![count_ended(items, off, items.len() as int)] + path;
            let cx = Cx { sexp, normal, body, off, inner };
            let (fname, key) = level_method(head_name(items));
            let tdefun = path2.len() == 1 && fname is Some && key is None && has_prefix_at(fname->0, 0, "def"@);
            let wd = path2.len() == 1 && fname is Some && key is None && !tdefun && with_or_do(fname->0);
            let open = level.start as int;
            let cap = is_comma_subst(e.src, open);
            let tent1 = if cap {
                Some(normal)
            } else {
                tentative
            };
            let stop = match tent1 {
                Some(t) => t,
                None => normal,
            };
            if is_quote_data(e.src, open) || is_hash(e.src, open) {
                sexp + 1
            } else if fname is None {
                if cap {
                    stop
                } else {
                    cl_levels(e, ni, chain, i - 1, sexp, inner, off, body, path2, tent1, normal)
                }
            } else if wd {
                l259(e, ni, cx, level, parent, path2, 1, seq![ElemS::Lambda, ElemS::Body], path2)
            } else if key is Some {
                match method_of(key->0) {
                    Method::Int(m) => integer_method(m, path2, sexp, normal, body),
                    Method::Fn(nm) => call_named(e, ni, cx, level, parent, path2, 1, nm),
                    Method::List(es) => l259(e, ni, cx, level, parent, path2, 1, es, path2),
                }
            } else if tdefun {
                let t = l259(e, ni, cx, level, parent, path2, 1, defun_method(), path2);
                if cap {
                    t
                } else {
                    cl_levels(e, ni, chain, i - 1, sexp, inner, off, body, path2, Some(t), t)
                }
            } else if cap {
                stop
            } else {
                cl_levels(e, ni, chain, i - 1, sexp, inner, off, body, path2, tent1, normal)
            }
        }
    }
}

/// `common-lisp-indent-function`'s column for the line at `off` whose
/// innermost list is `inner` (before clamping at zero).
pub open spec fn cl_indent(e: Env, ni: Seq<usize>, inner: Node, off: int) -> int {
    let sexp = col(e, ni, inner.start as int);
    if is_loop_form(inner) {
        loop_indent(e, ni, inner)
    } else {
        let chain = chain_at(e.forms, off);
        cl_levels(
            e,
            ni,
            chain,
            chain.len() - 1,
            sexp,
            inner,
            off,
            e.cfg.body_indent as int,
            Seq::empty(),
            None,
            cl_normal(e, ni, inner, off),
        )
    }
}

/// A column clamped to what a `usize` holds.
pub open spec fn clamp_col(v: int) -> int {
    if v < 0 {
        0
    } else {
        sat(v)
    }
}


// --- Executable helpers ------------------------------------------------------------

fn char_before_exec(src: &[char], i: usize) -> (r: Option<char>)
    ensures
        r == char_before(src@, i as int),
{
    if 1 <= i && i <= src.len() {
        Some(src[i - 1])
    } else {
        None
    }
}

fn first_nonws_exec(src: &[char], i: usize) -> (j: usize)
    ensures
        j == first_nonws(src@, i as int),
        j <= src@.len(),
{
    let mut j = i;
    if j >= src.len() {
        return src.len();
    }
    while j < src.len() && src[j] != '\n' && is_whitespace(src[j])
        invariant
            i <= j <= src@.len(),
            first_nonws(src@, j as int) == first_nonws(src@, i as int),
        decreases src.len() - j,
    {
        j = j + 1;
    }
    j
}

fn line_first_exec(src: &[char], off: usize) -> (r: Option<char>)
    ensures
        r == line_first(src@, off as int),
{
    let j = first_nonws_exec(src, off);
    if j < src.len() && src[j] != '\n' {
        Some(src[j])
    } else {
        None
    }
}

fn line_starts_with_tag_exec(src: &[char], off: usize) -> (b: bool)
    ensures
        b == line_starts_with_tag(src@, off as int),
{
    match line_first_exec(src, off) {
        Some(c) => !(c == '(' || c == ')' || c == '"' || c == '\'' || c == '`' || c == ',' || c == ';' || c
            == '#'),
        None => false,
    }
}

fn ll_keyword_name_exec(name: &[char]) -> (b: bool)
    ensures
        b == ll_keyword_name(name@),
{
    let s = crate::text::string_of(name);
    let l = to_lowercase(s.as_str());
    let lc = chars_of(l.as_str());
    let l = lc.as_slice();
    eq_lit(l, "&optional") || eq_lit(l, "&rest") || eq_lit(l, "&key") || eq_lit(l, "&body") || eq_lit(l, "&whole")
        || eq_lit(l, "&aux") || eq_lit(l, "&environment") || eq_lit(l, "&allow-other-keys")
}

fn is_ll_keyword_exec(d: &Node) -> (b: bool)
    ensures
        b == is_ll_keyword(*d),
{
    if d.shape != Shape::Symbol {
        return false;
    }
    let k = chars_of(d.key.as_str());
    ll_keyword_name_exec(k.as_slice())
}

fn token_end_exec(src: &[char], i: usize) -> (j: usize)
    requires
        i <= src@.len(),
    ensures
        j == token_end(src@, i as int),
        i <= j <= src@.len(),
{
    let mut j = i;
    while j < src.len() && !(is_whitespace(src[j]) || src[j] == '(' || src[j] == ')')
        invariant
            i <= j <= src@.len(),
            token_end(src@, j as int) == token_end(src@, i as int),
        decreases src.len() - j,
    {
        j = j + 1;
    }
    j
}

fn line_faces_ll_keyword_exec(src: &[char], off: usize) -> (b: bool)
    ensures
        b == line_faces_ll_keyword(src@, off as int),
{
    let a = first_nonws_exec(src, off);
    if a >= src.len() || src[a] != '&' {
        return false;
    }
    let b = token_end_exec(src, a);
    let w = slice_range(src, a, b);
    ll_keyword_name_exec(w.as_slice()) && (b >= src.len() || is_whitespace(src[b]))
}

fn head_name_exec(items: &[Node]) -> (r: Option<Vec<char>>)
    ensures
        match r {
            Some(h) => head_name(items@) == Some(h@),
            None => head_name(items@) is None,
        },
{
    if items.len() > 0 && (items[0].shape == Shape::Symbol || items[0].shape == Shape::Keyword) {
        let l = to_lowercase(items[0].key.as_str());
        Some(chars_of(l.as_str()))
    } else {
        None
    }
}

fn strip_pkg_exec(name: &[char]) -> (r: Option<Vec<char>>)
    ensures
        match r {
            Some(h) => strip_pkg(name@) == Some(h@),
            None => strip_pkg(name@) is None,
        },
{
    let mut c: usize = 0;
    while c < name.len() && !(name[c] == ':' && !(c + 1 < name.len() && name[c + 1] == ':'))
        invariant
            c <= name@.len(),
            pkg_colon(name@, c as int) == pkg_colon(name@, 0),
        decreases name.len() - c,
    {
        c = c + 1;
    }
    if c >= name.len() {
        return None;
    }
    let rest = slice_range(name, c + 1, name.len());
    if rest.len() == 0 || rest[0] == ':' {
        None
    } else {
        Some(rest)
    }
}

fn with_or_do_exec(name: &[char]) -> (b: bool)
    ensures
        b == with_or_do(name@),
{
    let a = chars_of("with-");
    let b = chars_of("without-");
    let c = chars_of("do-");
    starts_with_at(name, 0, a.as_slice()) || starts_with_at(name, 0, b.as_slice()) || starts_with_at(
        name,
        0,
        c.as_slice(),
    )
}

fn head_is_function_exec(items: &[Node]) -> (b: bool)
    ensures
        b == head_is_function(items@),
{
    match head_name_exec(items) {
        Some(n) => {
            if eq_lit(n.as_slice(), "function") {
                return true;
            }
            if n.len() < 9 {
                return false;
            }
            let t = slice_range(n.as_slice(), n.len() - 9, n.len());
            eq_lit(t.as_slice(), ":function")
        },
        None => false,
    }
}

// --- The chain of levels -------------------------------------------------------------

fn chain_at_exec<'n>(data: &'n [Node], off: usize, out: &mut Vec<&'n Node>)
    ensures
        crate::refactor::extends(old(out)@, final(out)@, chain_at(data@, off as int)),
    decreases data@, 0nat,
{
    match first_containing_exec(data, off) {
        Some(k) => chain_in_exec(&data[k], off, out),
        None => {
            assert(crate::refactor::extends(out@, out@, Seq::<Node>::empty()));
        },
    }
}

fn chain_one_exec<'n>(n: &'n Node, off: usize, out: &mut Vec<&'n Node>)
    ensures
        crate::refactor::extends(old(out)@, final(out)@, chain_one(*n, off as int)),
    decreases *n, 1nat,
{
    if n.start < off && off < n.end {
        chain_in_exec(n, off, out);
    } else {
        assert(crate::refactor::extends(out@, out@, Seq::<Node>::empty()));
    }
}

fn chain_in_exec<'n>(n: &'n Node, off: usize, out: &mut Vec<&'n Node>)
    ensures
        crate::refactor::extends(old(out)@, final(out)@, chain_in(*n, off as int)),
    decreases *n, 0nat,
{
    let ghost o0 = old(out)@;
    match n.shape {
        Shape::List => {
            out.push(n);
            let ghost o1 = out@;
            assert(crate::refactor::extends(o0, o1, seq![*n]));
            let before = out.len();
            chain_at_exec(n.items.as_slice(), off, out);
            let ghost o2 = out@;
            let ghost inner = chain_at(n.items@, off as int);
            if out.len() == before {
                assert(inner.len() == 0);
                match &n.tail {
                    Some(t) => {
                        chain_one_exec(t, off, out);
                        proof {
                            let z = chain_one(**t, off as int);
                            assert(o2 == o1);
                            crate::refactor::lemma_extends(o0, o1, out@, seq![*n], z);
                        }
                    },
                    None => {
                        assert(seq![*n] + Seq::<Node>::empty() == seq![*n]);
                    },
                }
            } else {
                proof {
                    crate::refactor::lemma_extends(o0, o1, out@, seq![*n], inner);
                }
            }
        },
        Shape::Prefixed => match &n.inner {
            Some(i) => chain_one_exec(i, off, out),
            None => {
                assert(crate::refactor::extends(out@, out@, Seq::<Node>::empty()));
            },
        },
        _ => {
            assert(crate::refactor::extends(out@, out@, Seq::<Node>::empty()));
        },
    }
}


// --- Building the methods -------------------------------------------------------------

fn list1(a0: Elem) -> (r: Vec<Elem>)
    ensures
        r@.len() == 1,
        elems_view(r@, 1) == seq![elem_view(a0)],
{
    let r = vec![a0];
    proof {
        reveal_with_fuel(elems_view, 2);
        assert(elems_view(r@, 1) =~= seq![elem_view(a0)]);
    }
    r
}

fn list2(a0: Elem, a1: Elem) -> (r: Vec<Elem>)
    ensures
        r@.len() == 2,
        elems_view(r@, 2) == seq![elem_view(a0), elem_view(a1)],
{
    let r = vec![a0, a1];
    proof {
        reveal_with_fuel(elems_view, 3);
        assert(elems_view(r@, 2) =~= seq![elem_view(a0), elem_view(a1)]);
    }
    r
}

fn list3(a0: Elem, a1: Elem, a2: Elem) -> (r: Vec<Elem>)
    ensures
        r@.len() == 3,
        elems_view(r@, 3) == seq![elem_view(a0), elem_view(a1), elem_view(a2)],
{
    let r = vec![a0, a1, a2];
    proof {
        reveal_with_fuel(elems_view, 4);
        assert(elems_view(r@, 3) =~= seq![elem_view(a0), elem_view(a1), elem_view(a2)]);
    }
    r
}

fn list4(a0: Elem, a1: Elem, a2: Elem, a3: Elem) -> (r: Vec<Elem>)
    ensures
        r@.len() == 4,
        elems_view(r@, 4) == seq![elem_view(a0), elem_view(a1), elem_view(a2), elem_view(a3)],
{
    let r = vec![a0, a1, a2, a3];
    proof {
        reveal_with_fuel(elems_view, 5);
        assert(elems_view(r@, 4) =~= seq![elem_view(a0), elem_view(a1), elem_view(a2), elem_view(a3)]);
    }
    r
}

fn list5(a0: Elem, a1: Elem, a2: Elem, a3: Elem, a4: Elem) -> (r: Vec<Elem>)
    ensures
        r@.len() == 5,
        elems_view(r@, 5) == seq![elem_view(a0), elem_view(a1), elem_view(a2), elem_view(a3), elem_view(a4)],
{
    let r = vec![a0, a1, a2, a3, a4];
    proof {
        reveal_with_fuel(elems_view, 6);
        assert(elems_view(r@, 5) =~= seq![elem_view(a0), elem_view(a1), elem_view(a2), elem_view(a3), elem_view(a4)]);
    }
    r
}

/// [`Method`] with executable element lists.
pub enum MethodX {
    Int(i64),
    Fn(Named),
    List(Vec<Elem>),
}

pub open spec fn method_view(m: MethodX) -> Method {
    match m {
        MethodX::Int(k) => Method::Int(k as int),
        MethodX::Fn(n) => Method::Fn(n),
        MethodX::List(v) => Method::List(elems_view(v@, v@.len() as int)),
    }
}

fn w2r1_exec() -> (e: Elem)
    ensures
        elem_view(e) == w2r1(),
{
    Elem::List(list4(Elem::Whole, Elem::Int(2), Elem::Rest, Elem::Int(1)))
}

fn defun_exec() -> (v: Vec<Elem>)
    ensures
        elems_view(v@, v@.len() as int) == defun_method(),
{
    list3(Elem::Int(4), Elem::Lambda, Elem::Body)
}

fn method_of_exec(k: Key) -> (r: MethodX)
    ensures
        method_view(r) == method_of(k),
{
    match k {
        Key::Int0 => MethodX::Int(0),
        Key::Int1 => MethodX::Int(1),
        Key::Int2 => MethodX::Int(2),
        Key::Case => MethodX::List(list3(Elem::Int(4), Elem::Rest, w2r1_exec())),
        Key::Cond => MethodX::List(list2(Elem::Rest, w2r1_exec())),
        Key::Defvar => MethodX::List(list3(Elem::Int(4), Elem::Int(2), Elem::Int(2))),
        Key::Defcustom => MethodX::List(list4(Elem::Int(4), Elem::Int(2), Elem::Int(2), Elem::Int(2))),
        Key::Defclass => MethodX::List(list4(Elem::Int(6), Elem::Int(4), w2r1_exec(), w2r1_exec())),
        Key::LambdaBody => MethodX::List(list2(Elem::Lambda, Elem::Body)),
        Key::Defsetf => MethodX::List(list4(Elem::Int(4), Elem::Lambda, Elem::Int(4), Elem::Body)),
        Key::Defun => MethodX::List(defun_exec()),
        Key::FourTwo => MethodX::List(list2(Elem::Int(4), Elem::Int(2))),
        Key::Defstruct => MethodX::List(
            list3(Elem::List(list4(Elem::Whole, Elem::Int(4), Elem::Rest, w2r1_exec())), Elem::Rest, w2r1_exec()),
        ),
        Key::Bind => MethodX::List(
            list3(Elem::List(list4(Elem::Whole, Elem::Int(6), Elem::Rest, Elem::Int(1))), Elem::Int(4), Elem::Body),
        ),
        Key::Dolist => MethodX::List(
            list2(Elem::List(list4(Elem::Whole, Elem::Int(4), Elem::Int(2), Elem::Int(1))), Elem::Body),
        ),
        Key::Flet => MethodX::List(
            list2(
                Elem::List(
                    list4(
                        Elem::Whole,
                        Elem::Int(4),
                        Elem::Rest,
                        Elem::List(list4(Elem::Whole, Elem::Int(1), Elem::Lambda, Elem::Body)),
                    ),
                ),
                Elem::Body,
            ),
        ),
        Key::HandlerCase => MethodX::List(
            list3(Elem::Int(4), Elem::Rest, Elem::List(list4(Elem::Whole, Elem::Int(2), Elem::Lambda, Elem::Body))),
        ),
        Key::If => MethodX::List(list2(Elem::Rest, Elem::Nil)),
        Key::Lambda => MethodX::List(list3(Elem::Lambda, Elem::Rest, Elem::Fn(Named::LambdaHack))),
        Key::Let => MethodX::List(
            list2(
                Elem::List(
                    list4(
                        Elem::Whole,
                        Elem::Int(4),
                        Elem::Rest,
                        Elem::List(list4(Elem::Whole, Elem::Int(1), Elem::Int(1), Elem::Int(2))),
                    ),
                ),
                Elem::Body,
            ),
        ),
        Key::FourBody => MethodX::List(list2(Elem::Int(4), Elem::Body)),
        Key::PrintUnreadable => MethodX::List(
            list2(Elem::List(list5(Elem::Whole, Elem::Int(4), Elem::Int(1), Elem::Rest, Elem::Int(1))), Elem::Body),
        ),
        Key::Prog => MethodX::List(list3(Elem::Lambda, Elem::Rest, Elem::Fn(Named::Tagbody))),
        Key::Progv => MethodX::List(list3(Elem::Int(4), Elem::Int(4), Elem::Body)),
        Key::ReturnFrom => MethodX::List(list2(Elem::Nil, Elem::Body)),
        Key::UnwindProtect => MethodX::List(list2(Elem::Int(5), Elem::Body)),
        Key::Two => MethodX::List(list1(Elem::Int(2))),
        Key::Defmethod => MethodX::Fn(Named::Defmethod),
        Key::Do => MethodX::Fn(Named::Do),
        Key::Tagbody => MethodX::Fn(Named::Tagbody),
    }
}


// --- The executable walker ------------------------------------------------------------

/// The range every column the walker computes stays in.
pub open spec fn bnd(v: int) -> bool {
    -0x2_0000_0000_0000_0000 <= v <= 0x4_0000_0000_0000_0000
}

/// [`Cx`] with machine integers.
pub struct CxX<'a> {
    pub sexp: i128,
    pub normal: i128,
    pub body: i128,
    pub off: usize,
    pub inner: &'a Node,
}

pub open spec fn cx_view(c: CxX) -> Cx {
    Cx { sexp: c.sexp as int, normal: c.normal as int, body: c.body as int, off: c.off as int, inner: *c.inner }
}

pub open spec fn cx_ok(c: CxX) -> bool {
    &&& 0 <= c.sexp <= usize::MAX
    &&& bnd(c.normal as int)
    &&& 0 <= c.body <= usize::MAX
}

pub open spec fn pv(p: Seq<usize>) -> Seq<int> {
    Seq::new(p.len(), |i: int| p[i] as int)
}

pub open spec fn ov(o: Option<&Node>) -> Option<Node> {
    match o {
        Some(n) => Some(*n),
        None => None,
    }
}

proof fn lemma_ev(s: Seq<Elem>, k: int)
    requires
        0 <= k <= s.len(),
    ensures
        elems_view(s, k).len() == k,
        forall|i: int| 0 <= i < k ==> #[trigger] elems_view(s, k)[i] == elem_view(s[i]),
    decreases k,
{
    if k > 0 {
        lemma_ev(s, k - 1);
        assert forall|i: int| 0 <= i < k implies #[trigger] elems_view(s, k)[i] == elem_view(s[i]) by {
            if i < k - 1 {
                assert(elems_view(s, k)[i] == elems_view(s, k - 1)[i]);
            }
        }
    }
}

proof fn lemma_ev_tail(s: Seq<Elem>, j: int)
    requires
        0 <= j <= s.len(),
    ensures
        elems_view(s.subrange(j, s.len() as int), s.len() - j) == elems_view(s, s.len() as int).subrange(
            j,
            s.len() as int,
        ),
{
    let t = s.subrange(j, s.len() as int);
    lemma_ev(s, s.len() as int);
    lemma_ev(t, s.len() - j);
    assert(elems_view(t, s.len() - j) =~= elems_view(s, s.len() as int).subrange(j, s.len() as int));
}

proof fn lemma_pv_tail(p: Seq<usize>)
    requires
        p.len() > 0,
    ensures
        pv(p.subrange(1, p.len() as int)) == pv(p).drop_first(),
{
    assert(pv(p.subrange(1, p.len() as int)) =~= pv(p).drop_first());
}

fn lambda_list_indent_exec(f: &Frame, ni: &[usize], cx: &CxX) -> (r: i128)
    requires
        f.wf(),
        cx_ok(*cx),
    ensures
        r == lambda_list_indent(f.env(), ni@, cx_view(*cx)),
        bnd(r as int),
{
    proof {
        f.lemma_env();
    }
    if cx.inner.shape != Shape::List || line_faces_ll_keyword_exec(f.src, cx.off) {
        return cx.sexp + 1;
    }
    let items = cx.inner.items.as_slice();
    let mut k: usize = items.len();
    while k > 0 && !(items[k - 1].end <= cx.off && is_ll_keyword_exec(&items[k - 1]))
        invariant
            k <= items@.len(),
            last_ll_keyword(items@, cx.off as int, k as int) == last_ll_keyword(
                items@,
                cx.off as int,
                items@.len() as int,
            ),
        decreases k,
    {
        k = k - 1;
    }
    if k > 0 {
        col_exec(f, ni, items[k - 1].start) as i128 + 2
    } else {
        cx.sexp + 1
    }
}

fn tagbody_indent_exec(f: &Frame, cx: &CxX, path: &[usize], tag_body: i128) -> (r: i128)
    requires
        f.wf(),
        cx_ok(*cx),
        0 <= tag_body <= usize::MAX,
    ensures
        r == tagbody_indent(f.env(), cx_view(*cx), pv(path@), tag_body as int),
        bnd(r as int),
{
    proof {
        f.lemma_env();
    }
    if path.len() > 1 {
        cx.normal
    } else if line_starts_with_tag_exec(f.src, cx.off) {
        cx.sexp + 1
    } else {
        cx.sexp + tag_body
    }
}

fn quals_exec(items: &[Node]) -> (n: usize)
    ensures
        n == quals(items@, 2),
        n <= items@.len(),
{
    let mut i: usize = 2;
    if i > items.len() {
        return 0;
    }
    while i < items.len() && (items[i].shape == Shape::Symbol || items[i].shape == Shape::Keyword)
        invariant
            2 <= i <= items@.len(),
            quals(items@, 2) == (i - 2) + quals(items@, i as int),
        decreases items.len() - i,
    {
        i = i + 1;
    }
    i - 2
}

fn defmethod_method_exec(level: &Node, path: &[usize]) -> (v: Vec<Elem>)
    ensures
        elems_view(v@, v@.len() as int) == defmethod_method(*level, pv(path@)),
{
    let nq = if level.shape == Shape::List {
        quals_exec(level.items.as_slice())
    } else {
        0
    };
    if path.len() > 0 && path[0] >= 3 && nq > 0 {
        let mut v: Vec<Elem> = Vec::new();
        v.push(Elem::Int(4));
        let mut i: usize = 0;
        while i < nq
            invariant
                i <= nq,
                v@.len() == i + 1,
                forall|j: int| 0 <= j < v@.len() ==> v@[j] == Elem::Int(4),
            decreases nq - i,
        {
            v.push(Elem::Int(4));
            i = i + 1;
        }
        v.push(Elem::Lambda);
        v.push(Elem::Body);
        proof {
            let want = seq![ElemS::Int(4)] + Seq::new(nq as nat, |i: int| ElemS::Int(4)) + seq![ElemS::Lambda, ElemS::Body];
            lemma_ev(v@, v@.len() as int);
            assert forall|j: int| 0 <= j < v@.len() implies elems_view(v@, v@.len() as int)[j] == want[j] by {
                if j < nq + 1 {
                    assert(v@[j] == Elem::Int(4));
                }
            }
            assert(elems_view(v@, v@.len() as int) =~= want);
        }
        v
    } else {
        defun_exec()
    }
}

fn lambda_hack_exec(f: &Frame, ni: &[usize], cx: &CxX, parent: Option<&Node>, path: &[usize]) -> (r: i128)
    requires
        f.wf(),
        cx_ok(*cx),
    ensures
        r == lambda_hack_indent(f.env(), ni@, cx_view(*cx), ov(parent), pv(path@)),
        bnd(r as int),
{
    if path.len() > 1 || (path.len() > 0 && path[0] > 3) {
        return cx.normal;
    }
    match parent {
        Some(pn) => {
            if pn.shape == Shape::List && head_is_function_exec(pn.items.as_slice()) {
                proof {
                    assert(head_name(pn.items@) is Some);
                }
                cx.body - 1 + col_exec(f, ni, pn.items[0].start) as i128
            } else {
                cx.sexp + cx.body
            }
        },
        None => cx.sexp + cx.body,
    }
}

fn call_named_exec(f: &Frame, ni: &[usize], cx: &CxX, level: &Node, parent: Option<&Node>, path: &[usize], fuel: u8, nm: Named) -> (r: i128)
    requires
        f.wf(),
        cx_ok(*cx),
    ensures
        r == call_named(f.env(), ni@, cx_view(*cx), *level, ov(parent), pv(path@), fuel as nat, nm),
        bnd(r as int),
    decreases fuel, 0int, 0int,
{
    match nm {
        Named::Tagbody => tagbody_indent_exec(f, cx, path, 3),
        Named::Do => {
            if path.len() > 0 && path[0] >= 3 {
                tagbody_indent_exec(f, cx, path, cx.body)
            } else if fuel == 0 {
                cx.normal
            } else {
                let m = list2(
                    Elem::List(list3(Elem::Whole, Elem::Nil, Elem::Rest)),
                    Elem::List(list4(Elem::Whole, Elem::Nil, Elem::Rest, Elem::Int(1))),
                );
                assert(elems_view(m@, m@.len() as int) == do_method());
                l259_exec(f, ni, cx, level, parent, path, fuel - 1, m.as_slice(), path)
            }
        },
        Named::Defmethod => {
            if fuel == 0 {
                cx.normal
            } else {
                let m = defmethod_method_exec(level, path);
                l259_exec(f, ni, cx, level, parent, path, fuel - 1, m.as_slice(), path)
            }
        },
        Named::LambdaHack => lambda_hack_exec(f, ni, cx, parent, path),
    }
}

fn l259_exec(f: &Frame, ni: &[usize], cx: &CxX, level: &Node, parent: Option<&Node>, path: &[usize], fuel: u8, m: &[Elem], p: &[usize]) -> (r: i128)
    requires
        f.wf(),
        cx_ok(*cx),
    ensures
        r == l259(f.env(), ni@, cx_view(*cx), *level, ov(parent), pv(path@), fuel as nat, elems_view(m@, m@.len() as int), pv(p@)),
        bnd(r as int),
    decreases fuel, p@.len(), 0int,
{
    if p.len() == 0 {
        return cx.normal;
    }
    let rest = vstd::slice::slice_subrange(p, 1, p.len());
    proof {
        lemma_pv_tail(p@);
    }
    walk_exec(f, ni, cx, level, parent, path, fuel, m, rest, p[0] as i128 - 1, false)
}

fn walk_exec(
    f: &Frame,
    ni: &[usize],
    cx: &CxX,
    level: &Node,
    parent: Option<&Node>,
    path: &[usize],
    fuel: u8,
    m: &[Elem],
    p: &[usize],
    n: i128,
    tail: bool,
) -> (r: i128)
    requires
        f.wf(),
        cx_ok(*cx),
        -1 <= n <= usize::MAX,
    ensures
        r == walk(
            f.env(),
            ni@,
            cx_view(*cx),
            *level,
            ov(parent),
            pv(path@),
            fuel as nat,
            elems_view(m@, m@.len() as int),
            pv(p@),
            n as int,
            tail,
        ),
        bnd(r as int),
    decreases fuel, p@.len(), m@.len(),
{
    let ghost ms = elems_view(m@, m@.len() as int);
    proof {
        lemma_ev(m@, m@.len() as int);
    }
    if m.len() == 0 {
        return cx.normal;
    }
    let tem = &m[0];
    assert(ms[0] == elem_view(m@[0]));
    let list_or_fn = match tem {
        Elem::List(_) | Elem::Fn(_) => true,
        _ => false,
    };
    if tail && !list_or_fn {
        return cx.normal;
    }
    let rest = vstd::slice::slice_subrange(m, 1, m.len());
    proof {
        lemma_ev_tail(m@, 1);
        assert(ms.subrange(1, ms.len() as int) == ms.drop_first());
    }
    match tem {
        Elem::Body => {
            if n == 0 && p.len() == 0 {
                cx.sexp + cx.body
            } else {
                cx.normal
            }
        },
        Elem::Rest => walk_exec(f, ni, cx, level, parent, path, fuel, rest, p, 0, n > 0),
        _ => {
            if n > 0 {
                return walk_exec(f, ni, cx, level, parent, path, fuel, rest, p, n - 1, tail);
            }
            match tem {
                Elem::Lambda => {
                    if p.len() == 0 {
                        cx.sexp + 4
                    } else if p.len() == 1 {
                        lambda_list_indent_exec(f, ni, cx)
                    } else {
                        cx.normal
                    }
                },
                Elem::Int(k) => {
                    if p.len() == 0 {
                        cx.sexp + *k as i128
                    } else {
                        cx.normal
                    }
                },
                Elem::Fn(nm) => call_named_exec(f, ni, cx, level, parent, path, fuel, *nm),
                Elem::List(sub) => {
                    let sv = sub.as_slice();
                    proof {
                        lemma_ev(sv@, sv@.len() as int);
                    }
                    if p.len() > 0 {
                        let from = if sv.len() >= 2 {
                            2
                        } else {
                            sv.len()
                        };
                        let sub2 = vstd::slice::slice_subrange(sv, from, sv.len());
                        proof {
                            lemma_ev_tail(sv@, from as int);
                            if sv.len() < 2 {
                                assert(elems_view(sub2@, sub2@.len() as int) =~= Seq::<ElemS>::empty());
                            }
                        }
                        let prest = vstd::slice::slice_subrange(p, 1, p.len());
                        proof {
                            lemma_pv_tail(p@);
                        }
                        walk_exec(f, ni, cx, level, parent, path, fuel, sub2, prest, p[0] as i128 - 1, false)
                    } else if tail || sv.len() < 2 {
                        cx.normal
                    } else {
                        assert(elems_view(sv@, sv@.len() as int)[1] == elem_view(sv@[1]));
                        match &sv[1] {
                            Elem::Int(k) => cx.sexp + *k as i128,
                            Elem::Fn(nm) => call_named_exec(f, ni, cx, level, parent, path, fuel, *nm),
                            _ => cx.normal,
                        }
                    }
                },
                _ => cx.normal,
            }
        },
    }
}


// --- The line's indent, executably -------------------------------------------------------

fn cl_normal_exec(f: &Frame, ni: &[usize], inner: &Node, off: usize) -> (r: i128)
    requires
        f.wf(),
    ensures
        r == cl_normal(f.env(), ni@, *inner, off as int),
        0 <= r <= usize::MAX + 1,
{
    let ghost e = f.env();
    if inner.shape != Shape::List {
        return col_exec(f, ni, inner.start) as i128 + 1;
    }
    let items = inner.items.as_slice();
    let open_col = col_exec(f, ni, inner.start) as i128;
    let mut k: usize = items.len();
    while k > 0 && items[k - 1].end > off
        invariant
            k <= items@.len(),
            last_ended(items@, off as int, k as int) == last_ended(items@, off as int, items@.len() as int),
        decreases k,
    {
        k = k - 1;
    }
    if k == 0 {
        return open_col + 1;
    }
    let li = k - 1;
    let first = &items[0];
    let last = &items[li];
    if first.shape == Shape::List {
        return col_exec(f, ni, first.start) as i128;
    }
    let ll = line_at_exec(f, last.start);
    if ll == line_at_exec(f, first.start) {
        let ws = first.start > inner.start && first.start - inner.start > 1;
        if ws || first.start == last.start || items.len() < 2 {
            col_exec(f, ni, first.start) as i128
        } else {
            col_exec(f, ni, items[1].start) as i128
        }
    } else {
        let mut q: usize = 0;
        while q < items.len() && line_at_exec(f, items[q].start) != ll
            invariant
                f.wf(),
                e == f.env(),
                q <= items@.len(),
                forall|j: int| 0 <= j < q ==> line_at(e, (#[trigger] items@[j]).start as int) != ll,
            decreases items.len() - q,
        {
            q = q + 1;
        }
        proof {
            lemma_first_on_line_is(e, items@, ll as int, q as int, items@.len() as int);
        }
        if q < items.len() {
            col_exec(f, ni, items[q].start) as i128
        } else {
            col_exec(f, ni, last.start) as i128
        }
    }
}

fn is_loop_form_exec(n: &Node) -> (b: bool)
    ensures
        b == is_loop_form(*n),
{
    if n.shape != Shape::List {
        return false;
    }
    match head_name_exec(n.items.as_slice()) {
        Some(h) => eq_lit(h.as_slice(), "loop") || eq_lit(h.as_slice(), "cl-loop"),
        None => false,
    }
}

fn loop_indent_exec(f: &Frame, ni: &[usize], n: &Node) -> (r: i128)
    requires
        f.wf(),
    ensures
        r == loop_indent(f.env(), ni@, *n),
        bnd(r as int),
{
    let lc = col_exec(f, ni, n.start) as i128;
    let items = n.items.as_slice();
    if items.len() > 1 && (items[1].shape == Shape::Symbol || items[1].shape == Shape::Keyword) {
        lc + 6
    } else {
        lc + 1
    }
}

fn integer_method_exec(m: i64, path: &[usize], sexp: i128, normal: i128, body: i128) -> (r: i128)
    requires
        0 <= sexp <= usize::MAX,
        bnd(normal as int),
        0 <= body <= usize::MAX,
    ensures
        r == integer_method(m as int, pv(path@), sexp as int, normal as int, body as int),
        bnd(r as int),
{
    if path.len() != 1 {
        normal
    } else if (path[0] as i128) <= (m as i128) {
        sexp + 4
    } else if (path[0] as i128) == (m as i128) + 1 {
        sexp + body
    } else {
        normal
    }
}

fn level_method_exec(items: &[Node]) -> (r: (Option<Vec<char>>, Option<Key>))
    ensures
        (match r.0 {
            Some(h) => Some(h@),
            None => None,
        }, r.1) == level_method(head_name(items@)),
{
    let f0 = head_name_exec(items);
    match f0 {
        None => (None, None),
        Some(h) => {
            let k0 = key_of_exec(h.as_slice());
            if k0.is_some() {
                return (Some(h), k0);
            }
            match strip_pkg_exec(h.as_slice()) {
                Some(st) => {
                    let k1 = key_of_exec(st.as_slice());
                    (Some(st), k1)
                },
                None => (Some(h), k0),
            }
        },
    }
}

pub open spec fn tv(t: Option<i128>) -> Option<int> {
    match t {
        Some(v) => Some(v as int),
        None => None,
    }
}

fn cl_levels_exec(f: &Frame, ni: &[usize], chain: &Vec<&Node>, sexp: i128, inner: &Node, off: usize, body: i128, normal0: i128) -> (r: i128)
    requires
        f.wf(),
        0 <= sexp <= usize::MAX,
        0 <= body <= usize::MAX,
        bnd(normal0 as int),
    ensures
        r == cl_levels(
            f.env(),
            ni@,
            crate::refactor::derefs(chain@),
            chain@.len() - 1,
            sexp as int,
            *inner,
            off as int,
            body as int,
            Seq::empty(),
            None,
            normal0 as int,
        ),
        bnd(r as int),
{
    proof {
        f.lemma_env();
    }
    let ghost e = f.env();
    let ghost ch = crate::refactor::derefs(chain@);
    let ghost want = cl_levels(e, ni@, ch, chain@.len() - 1, sexp as int, *inner, off as int, body as int, Seq::empty(), None, normal0 as int);
    let mut path: Vec<usize> = Vec::new();
    let mut tentative: Option<i128> = None;
    let mut normal: i128 = normal0;
    let mut i: usize = chain.len();
    assert(pv(path@) =~= Seq::<int>::empty());
    while i > 0 && path.len() < 3
        invariant
            f.wf(),
            e == f.env(),
            e.src == f.src@,
            ch == crate::refactor::derefs(chain@),
            i <= chain@.len(),
            0 <= sexp <= usize::MAX,
            0 <= body <= usize::MAX,
            bnd(normal as int),
            match tentative {
                Some(t) => bnd(t as int),
                None => true,
            },
            want == cl_levels(e, ni@, ch, i - 1, sexp as int, *inner, off as int, body as int, pv(path@), tv(tentative), normal as int),
            want == cl_levels(e, ni@, ch, chain@.len() - 1, sexp as int, *inner, off as int, body as int, Seq::empty(), None, normal0 as int),
        decreases i,
    {
        let level = chain[i - 1];
        let parent: Option<&Node> = if i > 1 {
            Some(chain[i - 2])
        } else {
            None
        };
        assert(*level == ch[i - 1]);
        assert(ov(parent) == if i - 1 > 0 { Some(ch[i - 2]) } else { None::<Node> });
        if level.shape != Shape::List {
            i = i - 1;
            continue;
        }
        let items = level.items.as_slice();
        let cnt = count_ended_exec(items, off);
        let ghost p0 = pv(path@);
        path.insert(0, cnt);
        assert(pv(path@) =~= seq![count_ended(items@, off as int, items@.len() as int)] + p0);
        let cx = CxX { sexp, normal, body, off, inner };
        let (fname, key) = level_method_exec(items);
        let d = chars_of("def");
        proof {
            reveal_strlit("def");
        }
        let tdefun = path.len() == 1 && key.is_none() && match &fname {
            Some(h) => starts_with_at(h.as_slice(), 0, d.as_slice()),
            None => false,
        };
        let wd = path.len() == 1 && key.is_none() && !tdefun && match &fname {
            Some(h) => with_or_do_exec(h.as_slice()),
            None => false,
        };
        let open = level.start;
        let cap = is_comma_exec(f.src, open);
        let tent1 = if cap {
            Some(normal)
        } else {
            tentative
        };
        let stop = match tent1 {
            Some(t) => t,
            None => normal,
        };
        if is_quote_exec(f.src, open) || is_hash_exec(f.src, open) {
            return sexp + 1;
        }
        if fname.is_none() {
            if cap {
                return stop;
            }
            tentative = tent1;
            i = i - 1;
            continue;
        }
        if wd {
            let m = list2(Elem::Lambda, Elem::Body);
            return l259_exec(f, ni, &cx, level, parent, path.as_slice(), 1, m.as_slice(), path.as_slice());
        }
        match key {
            Some(k) => {
                let meth = method_of_exec(k);
                return match meth {
                    MethodX::Int(mm) => integer_method_exec(mm, path.as_slice(), sexp, normal, body),
                    MethodX::Fn(nm) => call_named_exec(f, ni, &cx, level, parent, path.as_slice(), 1, nm),
                    MethodX::List(es) => l259_exec(f, ni, &cx, level, parent, path.as_slice(), 1, es.as_slice(), path.as_slice()),
                };
            },
            None => {},
        }
        if tdefun {
            let m = defun_exec();
            let t = l259_exec(f, ni, &cx, level, parent, path.as_slice(), 1, m.as_slice(), path.as_slice());
            if cap {
                return t;
            }
            tentative = Some(t);
            normal = t;
            i = i - 1;
            continue;
        }
        if cap {
            return stop;
        }
        tentative = tent1;
        i = i - 1;
    }
    match tentative {
        Some(t) => t,
        None => normal,
    }
}

fn is_quote_exec(src: &[char], open: usize) -> (b: bool)
    ensures
        b == is_quote_data(src@, open as int),
{
    char_before_exec(src, open) == Some('\'') && (open == 0 || char_before_exec(src, open - 1) != Some('#'))
}

fn is_comma_exec(src: &[char], open: usize) -> (b: bool)
    ensures
        b == is_comma_subst(src@, open as int),
{
    let c = char_before_exec(src, open);
    c == Some(',') || (c == Some('@') && open > 0 && char_before_exec(src, open - 1) == Some(','))
}

fn is_hash_exec(src: &[char], open: usize) -> (b: bool)
    ensures
        b == is_hash(src@, open as int),
{
    char_before_exec(src, open) == Some('#')
}

/// The Common Lisp engine's indent for a code line at `off` whose innermost
/// list is `inner` (see [`cl_indent`]), clamped to a column.
pub(super) fn cl_indent_exec(f: &Frame, ni: &[usize], inner: &Node, off: usize) -> (r: usize)
    requires
        f.wf(),
    ensures
        r == clamp_col(cl_indent(f.env(), ni@, *inner, off as int)),
{
    proof {
        f.lemma_env();
    }
    let sexp = col_exec(f, ni, inner.start) as i128;
    let v = if is_loop_form_exec(inner) {
        loop_indent_exec(f, ni, inner)
    } else {
        let normal = cl_normal_exec(f, ni, inner, off);
        let mut chain: Vec<&Node> = Vec::new();
        chain_at_exec(f.forms, off, &mut chain);
        proof {
            crate::refactor::lemma_extends_empty(chain@, chain_at(f.forms@, off as int));
        }
        cl_levels_exec(f, ni, &chain, sexp, inner, off, f.cfg.body_indent as i128, normal)
    };
    if v < 0 {
        0
    } else if v > usize::MAX as i128 {
        usize::MAX
    } else {
        v as usize
    }
}

} // verus!
