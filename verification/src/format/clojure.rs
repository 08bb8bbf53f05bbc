//! Clojure and Phel indentation: cljfmt's semantic `:inner`/`:block` model,
//! the style `cljfmt`, `clojure-ts-mode` and `phel format` share.
//!
//! To indent a code line, let `c` be its innermost enclosing collection and
//! `open` the column of `c`'s opening delimiter. Value children are counted
//! (metadata does not consume a slot): in `(head a b …)`, `head` is position
//! 0 and `a` is **arg 0**.
//!
//! - Collection literals `[…]`, `{…}`, `#{…}` align under the first element.
//! - Round lists use the call model:
//!   - default (no rule, or a non-symbol head): an arg on the head line →
//!     align under arg 0; head alone on its line → `open + 1`;
//!   - `[:inner D]` / `[:inner D idx]`: a rule on the form `D + 1` levels
//!     above the line's node gives `open + body` (`idx` restricts it to that
//!     ancestor's argument);
//!   - `[:block N]`: args before `N` are special and use the default; the
//!     body (args from `N` on) gets `open + body` only if the first body form
//!     begins its own line, else the whole form falls back to the default.
//!     Phel indents the special args as body too, once the body breaks.
//! - The fixed (Tonsky) style gives every symbol-headed list `open + body`.
//!
//! Unknown `def…`/`with-…` heads match cljfmt's fallbacks, `[:inner 0]`.

use vstd::prelude::*;

use super::{col, col_exec, contains, first_containing, first_containing_exec, lemma_first_containing, line_at, line_at_exec, sat, Env, Frame};
use crate::reader::{Dialect, Node, Shape};
use crate::text::{chars_of, eq_lit, has_prefix_at, starts_with_at};

verus! {

/// A cljfmt indent rule.
#[derive(Debug, Clone, Copy, PartialEq, Eq, Structural)]
pub enum CljRule {
    /// `[:inner D]` / `[:inner D idx]`: `+body` for nodes `D + 1` levels
    /// below the form, within its argument `idx` when given.
    Inner { depth: usize, idx: Option<usize> },
    /// `[:block N]`: `N` special arguments, then the body.
    Block(usize),
}

pub open spec fn inner0() -> CljRule {
    CljRule::Inner { depth: 0, idx: None }
}

/// cljfmt's `^def(?!ault)(?!late)(?!er)`: a `def…` head but not `default`,
/// `deflate` or `defer`.
pub open spec fn is_def_like(name: Seq<char>) -> bool {
    has_prefix_at(name, 0, "def"@) && !has_prefix_at(name, 3, "ault"@) && !has_prefix_at(name, 3, "late"@)
        && !has_prefix_at(name, 3, "er"@)
}

pub open spec fn clj_inner0_name(n: Seq<char>) -> bool {
    n == "def"@ || n == "defn"@ || n == "defn-"@ || n == "defmacro"@ || n == "defmethod"@ || n
        == "defmulti"@ || n == "defonce"@ || n == "deftest"@ || n == "fn"@ || n == "bound-fn"@ || n
        == "fdef"@ || n == "use-fixtures"@ || n == "ANY"@ || n == "DELETE"@ || n == "GET"@ || n
        == "HEAD"@ || n == "OPTIONS"@ || n == "PATCH"@ || n == "POST"@ || n == "PUT"@ || n
        == "context"@ || n == "defroutes"@ || n == "rfn"@
}

pub open spec fn clj_block0_name(n: Seq<char>) -> bool {
    n == "alt!"@ || n == "alt!!"@ || n == "comment"@ || n == "cond"@ || n == "delay"@ || n == "do"@
        || n == "finally"@ || n == "future"@ || n == "go"@ || n == "thread"@ || n == "try"@ || n
        == "with-out-str"@
}

pub open spec fn clj_block1_name(n: Seq<char>) -> bool {
    n == "binding"@ || n == "case"@ || n == "cond->"@ || n == "cond->>"@ || n == "defstruct"@ || n
        == "doseq"@ || n == "dotimes"@ || n == "doto"@ || n == "extend"@ || n == "for"@ || n
        == "go-loop"@ || n == "if"@ || n == "if-let"@ || n == "if-not"@ || n == "if-some"@ || n
        == "let"@ || n == "let*"@ || n == "locking"@ || n == "loop"@ || n == "match"@ || n == "ns"@
        || n == "struct-map"@ || n == "testing"@ || n == "when"@ || n == "when-first"@ || n
        == "when-let"@ || n == "when-not"@ || n == "when-some"@ || n == "while"@ || n
        == "with-local-vars"@ || n == "with-open"@ || n == "with-precision"@ || n == "with-redefs"@
        || n == "let-routes"@
}

pub open spec fn clj_block2_name(n: Seq<char>) -> bool {
    n == "are"@ || n == "as->"@ || n == "catch"@ || n == "condp"@
}

/// cljfmt's default indent rules for the bare head `n`; none for a plain
/// call.
pub open spec fn clj_rules(n: Seq<char>) -> Seq<CljRule> {
    if clj_inner0_name(n) {
        seq![inner0()]
    } else if clj_block0_name(n) {
        seq![CljRule::Block(0)]
    } else if clj_block1_name(n) {
        seq![CljRule::Block(1)]
    } else if clj_block2_name(n) {
        seq![CljRule::Block(2)]
    } else if n == "defprotocol"@ || n == "extend-protocol"@ || n == "extend-type"@ {
        seq![CljRule::Block(1), CljRule::Inner { depth: 1, idx: None }]
    } else if n == "defrecord"@ || n == "deftype"@ || n == "proxy"@ {
        seq![CljRule::Block(2), CljRule::Inner { depth: 1, idx: None }]
    } else if n == "reify"@ {
        seq![inner0(), CljRule::Inner { depth: 1, idx: None }]
    } else if n == "letfn"@ {
        seq![CljRule::Block(1), CljRule::Inner { depth: 2, idx: Some(0) }]
    } else if is_def_like(n) || has_prefix_at(n, 0, "with-"@) {
        seq![inner0()]
    } else {
        Seq::empty()
    }
}

pub open spec fn phel_inner0_name(n: Seq<char>) -> bool {
    n == "def"@ || n == "def-"@ || n == "defn"@ || n == "defn-"@ || n == "defmacro"@ || n
        == "defmacro-"@ || n == "deftest"@ || n == "fn"@ || n == "defstruct"@ || n == "defrecord"@
        || n == "definterface"@ || n == "defexception"@ || n == "defenum"@ || n == "defprotocol"@
        || n == "defmulti"@ || n == "defmethod"@ || n == "defonce"@ || n == "reify"@
}

pub open spec fn phel_block0_name(n: Seq<char>) -> bool {
    n == "do"@ || n == "cond"@ || n == "try"@ || n == "finally"@ || n == "with-output-buffer"@ || n
        == "delay"@ || n == "lazy-seq"@
}

pub open spec fn phel_block1_name(n: Seq<char>) -> bool {
    n == "if"@ || n == "if-not"@ || n == "foreach"@ || n == "for"@ || n == "dofor"@ || n == "let"@
        || n == "ns"@ || n == "loop"@ || n == "case"@ || n == "when"@ || n == "when-not"@ || n
        == "when-let"@ || n == "when-some"@ || n == "if-let"@ || n == "if-some"@ || n == "binding"@
        || n == "when-first"@ || n == "doseq"@ || n == "dotimes"@ || n == "letfn"@ || n
        == "with-redefs"@ || n == "with-bindings"@ || n == "extend-type"@ || n == "extend-protocol"@
}

/// Phel's indent rules (`phel format`) for the bare head `n`.
pub open spec fn phel_rules(n: Seq<char>) -> Seq<CljRule> {
    if phel_inner0_name(n) {
        seq![inner0()]
    } else if phel_block0_name(n) {
        seq![CljRule::Block(0)]
    } else if phel_block1_name(n) {
        seq![CljRule::Block(1)]
    } else if n == "catch"@ || n == "condp"@ {
        seq![CljRule::Block(2)]
    } else {
        Seq::empty()
    }
}

/// The rules for head `n` in dialect `d`: Phel's table for Phel, cljfmt's
/// otherwise.
pub open spec fn rules_for(n: Seq<char>, d: Dialect) -> Seq<CljRule> {
    if d == Dialect::Phel {
        phel_rules(n)
    } else {
        clj_rules(n)
    }
}

/// The index of the last `/` among `s[..k]`, or -1.
pub open spec fn last_slash(s: Seq<char>, k: int) -> int
    decreases k,
{
    if k <= 0 || k > s.len() {
        -1
    } else if s[k - 1] == '/' {
        k - 1
    } else {
        last_slash(s, k - 1)
    }
}

/// A symbol without its namespace qualifier: the part after the last `/`,
/// unless the symbol is `/` itself.
pub open spec fn strip_ns(s: Seq<char>) -> Seq<char> {
    let j = last_slash(s, s.len() as int);
    if j >= 0 && s.len() > 1 {
        s.subrange(j + 1, s.len() as int)
    } else {
        s
    }
}

/// Whether `n` is a `^metadata` reader macro.
pub open spec fn is_meta(n: Node) -> bool {
    n.shape == Shape::Prefixed && n.key@ == "Meta"@
}

/// Whether `n` is a reader conditional `#?(…)` / `#?@(…)`.
pub open spec fn is_reader_cond(n: Node) -> bool {
    n.shape == Shape::Prefixed && has_prefix_at(n.key@, 0, "ReaderConditional"@)
}

/// The head symbol of a list for rule lookup: namespace-stripped, seeing
/// through `^metadata` only.
pub open spec fn clj_head(n: Node) -> Option<Seq<char>>
    decreases n,
{
    if n.shape == Shape::Symbol {
        Some(strip_ns(n.key@))
    } else if is_meta(n) {
        match n.inner {
            Some(i) => clj_head(*i),
            None => None,
        }
    } else {
        None
    }
}

/// Where a datum's form begins, past any leading `^metadata`.
pub open spec fn form_start(n: Node) -> int
    decreases n,
{
    if is_meta(n) {
        match n.inner {
            Some(i) => form_start(*i),
            None => n.start as int,
        }
    } else {
        n.start as int
    }
}

/// The enclosing lists of `off` among `data`, outermost first, each with
/// whether a reader conditional wraps it directly.
pub open spec fn stack_at(data: Seq<Node>, off: int) -> Seq<(Node, bool)>
    decreases data, 0nat,
{
    match first_containing(data, off, 0) {
        Some(k) => {
            proof {
                lemma_first_containing(data, off, 0);
            }
            stack_in(data[k], off, false)
        },
        None => Seq::empty(),
    }
}

pub open spec fn stack_one(n: Node, off: int, w: bool) -> Seq<(Node, bool)>
    decreases n, 1nat,
{
    if contains(n, off) {
        stack_in(n, off, w)
    } else {
        Seq::empty()
    }
}

pub open spec fn stack_in(n: Node, off: int, w: bool) -> Seq<(Node, bool)>
    decreases n, 0nat,
{
    match n.shape {
        Shape::List => seq![(n, w)] + stack_at(n.items@, off),
        Shape::Prefixed => match n.arg {
            Some(a) if contains(*a, off) => stack_in(*a, off, false),
            _ => match n.inner {
                Some(i) => stack_one(*i, off, is_reader_cond(n)),
                None => Seq::empty(),
            },
        },
        Shape::HashLiteral => match n.inner {
            Some(i) => stack_one(*i, off, false),
            None => Seq::empty(),
        },
        _ => Seq::empty(),
    }
}

/// The index of the first of `items[k..]` starting at `s`.
pub open spec fn first_at(items: Seq<Node>, s: int, k: int) -> Option<int>
    decreases items.len() - k,
{
    if k < 0 || k >= items.len() {
        None
    } else if items[k].start == s {
        Some(k)
    } else {
        first_at(items, s, k + 1)
    }
}

/// The argument index (head excluded) of `child` among `items`, by start.
pub open spec fn arg_index_in(items: Seq<Node>, child: Node) -> Option<int> {
    match first_at(items, child.start as int, 0) {
        Some(p) => Some(if p > 0 {
            p - 1
        } else {
            0
        }),
        None => None,
    }
}

/// Whether `r` is an `[:inner depth idx]` rule that applies, `child` being
/// the ancestor's child on the path down.
pub open spec fn rule_hit(r: CljRule, depth: int, items: Seq<Node>, child: Option<Node>) -> bool {
    match r {
        CljRule::Inner { depth: dd, idx } => dd == depth && match idx {
            None => true,
            Some(want) => match child {
                Some(ch) => arg_index_in(items, ch) == Some(want as int),
                None => false,
            },
        },
        CljRule::Block(_) => false,
    }
}

/// Whether a rule among `rules[k..]` applies (see [`rule_hit`]).
pub open spec fn rules_hit(rules: Seq<CljRule>, depth: int, items: Seq<Node>, child: Option<Node>, k: int) -> bool
    decreases rules.len() - k,
{
    if k < 0 || k >= rules.len() {
        false
    } else {
        rule_hit(rules[k], depth, items, child) || rules_hit(rules, depth, items, child, k + 1)
    }
}

/// Whether a rule on the ancestor `depth` levels above the innermost list
/// of `st` gives the line body indent.
pub open spec fn inner_at_depth(st: Seq<(Node, bool)>, d: Dialect, depth: int) -> bool {
    let n = st.len() as int;
    if depth < 0 || depth >= n || depth >= 3 {
        false
    } else {
        let anc = st[n - 1 - depth].0;
        if anc.shape != Shape::List || anc.items@.len() == 0 {
            false
        } else {
            match clj_head(anc.items@[0]) {
                Some(h) => rules_hit(
                    rules_for(h, d),
                    depth,
                    anc.items@,
                    if depth > 0 {
                        Some(st[n - depth].0)
                    } else {
                        None
                    },
                    0,
                ),
                None => false,
            }
        }
    }
}

pub open spec fn inner_applies(st: Seq<(Node, bool)>, d: Dialect) -> bool {
    inner_at_depth(st, d, 0) || inner_at_depth(st, d, 1) || inner_at_depth(st, d, 2)
}

/// The first `[:block N]` among `rules[k..]`.
pub open spec fn first_block(rules: Seq<CljRule>, k: int) -> Option<int>
    decreases rules.len() - k,
{
    if k < 0 || k >= rules.len() {
        None
    } else {
        match rules[k] {
            CljRule::Block(n) => Some(n as int),
            _ => first_block(rules, k + 1),
        }
    }
}

/// How many of `items[..k]` have their form begin before `off`.
pub open spec fn count_before(items: Seq<Node>, off: int, k: int) -> int
    decreases k,
{
    if k <= 0 || k > items.len() {
        0
    } else {
        count_before(items, off, k - 1) + if form_start(items[k - 1]) < off {
            1int
        } else {
            0
        }
    }
}

/// Default call alignment: under arg 0 when its form begins on the head's
/// line, else `open + 1`.
pub open spec fn default_indent(e: Env, ni: Seq<usize>, items: Seq<Node>, open_col: int) -> int {
    if items.len() > 1 && line_at(e, form_start(items[1])) == line_at(e, items[0].start as int) {
        col(e, ni, items[1].start as int)
    } else {
        sat(open_col + 1)
    }
}

/// Whether `items[j]` begins its own line (its predecessor ends on an
/// earlier one).
pub open spec fn begins_line(e: Env, items: Seq<Node>, j: int) -> bool {
    if j <= 0 || j >= items.len() {
        true
    } else {
        let prev_end = if items[j - 1].end > 0 {
            items[j - 1].end - 1
        } else {
            0
        };
        line_at(e, items[j].start as int) > line_at(e, prev_end)
    }
}

/// `[:block n]`: body indent when the first body form begins its own line
/// (or is not there yet), else the default; cljfmt keeps the special args on
/// the default.
pub open spec fn block_indent(
    e: Env,
    ni: Seq<usize>,
    items: Seq<Node>,
    open_col: int,
    off: int,
    pos: int,
    n: int,
    body: int,
    d: Dialect,
) -> int {
    if d != Dialect::Phel && pos >= 1 && pos - 1 < n {
        default_indent(e, ni, items, open_col)
    } else if n + 1 >= items.len() {
        sat(open_col + body)
    } else if items[n + 1].start >= off || begins_line(e, items, n + 1) {
        sat(open_col + body)
    } else {
        default_indent(e, ni, items, open_col)
    }
}

/// A collection literal: under its first element when that is on the
/// opener's line, else `open` plus the opener's width.
pub open spec fn coll_indent(e: Env, ni: Seq<usize>, items: Seq<Node>, open_off: int, open_col: int, set: bool) -> int {
    if items.len() > 0 && line_at(e, items[0].start as int) == line_at(e, open_off) {
        col(e, ni, items[0].start as int)
    } else {
        sat(open_col + if set {
            2int
        } else {
            1
        })
    }
}

/// The indent of the code line starting at `off` whose innermost enclosing
/// list is `c`, in dialect `d`, in the fixed style when `fixed`.
pub open spec fn clj_indent(e: Env, ni: Seq<usize>, c: Node, off: int, fixed: bool, d: Dialect) -> int {
    let body = if d == Dialect::Islisp {
        4
    } else {
        e.cfg.body_indent as int
    };
    let items = c.items@;
    if c.shape != Shape::List {
        0
    } else {
        let open_col = col(e, ni, c.start as int);
        if c.key@ != "Round"@ {
            coll_indent(e, ni, items, c.start as int, open_col, c.key@ == "Set"@)
        } else {
            let pos = count_before(items, off, items.len() as int);
            let st = stack_at(e.forms, off);
            let head = if items.len() > 0 {
                clj_head(items[0])
            } else {
                None
            };
            if st.len() > 0 && st.last().1 {
                coll_indent(e, ni, items, c.start as int, open_col, false)
            } else if fixed {
                if head is Some {
                    sat(open_col + body)
                } else {
                    default_indent(e, ni, items, open_col)
                }
            } else if inner_applies(st, d) {
                sat(open_col + body)
            } else {
                match head {
                    Some(h) => match first_block(rules_for(h, d), 0) {
                        Some(n) => block_indent(e, ni, items, open_col, off, pos, n, body, d),
                        None => default_indent(e, ni, items, open_col),
                    },
                    None => default_indent(e, ni, items, open_col),
                }
            }
        }
    }
}

// --- Executable engine ---------------------------------------------------------------

fn strip_ns_exec(s: &[char]) -> (r: Vec<char>)
    ensures
        r@ == strip_ns(s@),
{
    let mut k: usize = s.len();
    while k > 0 && s[k - 1] != '/'
        invariant
            k <= s@.len(),
            last_slash(s@, s@.len() as int) == last_slash(s@, k as int),
        decreases k,
    {
        k = k - 1;
    }
    let mut r: Vec<char> = Vec::new();
    let from = if k > 0 && s.len() > 1 {
        k
    } else {
        0
    };
    let mut i = from;
    while i < s.len()
        invariant
            from <= i <= s@.len(),
            r@ == s@.subrange(from as int, i as int),
        decreases s.len() - i,
    {
        r.push(s[i]);
        assert(s@.subrange(from as int, i + 1) == s@.subrange(from as int, i as int).push(s@[i as int]));
        i = i + 1;
    }
    assert(s@.subrange(0, s@.len() as int) == s@);
    r
}

fn is_meta_exec(n: &Node) -> (b: bool)
    ensures
        b == is_meta(*n),
{
    match n.shape {
        Shape::Prefixed => {
            let k = chars_of(n.key.as_str());
            eq_lit(k.as_slice(), "Meta")
        },
        _ => false,
    }
}

fn is_reader_cond_exec(n: &Node) -> (b: bool)
    ensures
        b == is_reader_cond(*n),
{
    match n.shape {
        Shape::Prefixed => {
            let k = chars_of(n.key.as_str());
            let p = chars_of("ReaderConditional");
            starts_with_at(k.as_slice(), 0, p.as_slice())
        },
        _ => false,
    }
}

fn clj_head_exec(n: &Node) -> (r: Option<Vec<char>>)
    ensures
        match r {
            Some(v) => clj_head(*n) == Some(v@),
            None => clj_head(*n) is None,
        },
    decreases *n,
{
    match n.shape {
        Shape::Symbol => {
            let k = chars_of(n.key.as_str());
            Some(strip_ns_exec(k.as_slice()))
        },
        _ => {
            if is_meta_exec(n) {
                match &n.inner {
                    Some(i) => clj_head_exec(i),
                    None => None,
                }
            } else {
                None
            }
        },
    }
}

fn form_start_exec(n: &Node) -> (r: usize)
    ensures
        r == form_start(*n),
    decreases *n,
{
    if is_meta_exec(n) {
        match &n.inner {
            Some(i) => form_start_exec(i),
            None => n.start,
        }
    } else {
        n.start
    }
}

fn is_def_like_exec(h: &[char]) -> (b: bool)
    ensures
        b == is_def_like(h@),
{
    proof {
        reveal_strlit("def");
    }
    let def = chars_of("def");
    if !starts_with_at(h, 0, def.as_slice()) {
        return false;
    }
    let a = chars_of("ault");
    let l = chars_of("late");
    let e = chars_of("er");
    !starts_with_at(h, 3, a.as_slice()) && !starts_with_at(h, 3, l.as_slice()) && !starts_with_at(h, 3, e.as_slice())
}

/// The rules for head `h` in dialect `d` (see [`rules_for`]).
fn rules_exec(h: &[char], d: Dialect) -> (r: Vec<CljRule>)
    ensures
        r@ == rules_for(h@, d),
{
    let is = |lit: &str| -> (b: bool)
        ensures
            b == (h@ == lit@),
        { eq_lit(h, lit) };
    let i0 = CljRule::Inner { depth: 0, idx: None };
    let i1 = CljRule::Inner { depth: 1, idx: None };
    if d == Dialect::Phel {
        if is("def") || is("def-") || is("defn") || is("defn-") || is("defmacro") || is("defmacro-")
            || is("deftest") || is("fn") || is("defstruct") || is("defrecord") || is("definterface")
            || is("defexception") || is("defenum") || is("defprotocol") || is("defmulti") || is(
            "defmethod",
        ) || is("defonce") || is("reify") {
            vec![i0]
        } else if is("do") || is("cond") || is("try") || is("finally") || is("with-output-buffer") || is(
            "delay",
        ) || is("lazy-seq") {
            vec![CljRule::Block(0)]
        } else if is("if") || is("if-not") || is("foreach") || is("for") || is("dofor") || is("let")
            || is("ns") || is("loop") || is("case") || is("when") || is("when-not") || is("when-let")
            || is("when-some") || is("if-let") || is("if-some") || is("binding") || is("when-first")
            || is("doseq") || is("dotimes") || is("letfn") || is("with-redefs") || is("with-bindings")
            || is("extend-type") || is("extend-protocol") {
            vec![CljRule::Block(1)]
        } else if is("catch") || is("condp") {
            vec![CljRule::Block(2)]
        } else {
            Vec::new()
        }
    } else if is("def") || is("defn") || is("defn-") || is("defmacro") || is("defmethod") || is(
        "defmulti",
    ) || is("defonce") || is("deftest") || is("fn") || is("bound-fn") || is("fdef") || is(
        "use-fixtures",
    ) || is("ANY") || is("DELETE") || is("GET") || is("HEAD") || is("OPTIONS") || is("PATCH") || is(
        "POST",
    ) || is("PUT") || is("context") || is("defroutes") || is("rfn") {
        vec![i0]
    } else if is("alt!") || is("alt!!") || is("comment") || is("cond") || is("delay") || is("do") || is(
        "finally",
    ) || is("future") || is("go") || is("thread") || is("try") || is("with-out-str") {
        vec![CljRule::Block(0)]
    } else if is("binding") || is("case") || is("cond->") || is("cond->>") || is("defstruct") || is(
        "doseq",
    ) || is("dotimes") || is("doto") || is("extend") || is("for") || is("go-loop") || is("if") || is(
        "if-let",
    ) || is("if-not") || is("if-some") || is("let") || is("let*") || is("locking") || is("loop") || is(
        "match",
    ) || is("ns") || is("struct-map") || is("testing") || is("when") || is("when-first") || is(
        "when-let",
    ) || is("when-not") || is("when-some") || is("while") || is("with-local-vars") || is("with-open")
        || is("with-precision") || is("with-redefs") || is("let-routes") {
        vec![CljRule::Block(1)]
    } else if is("are") || is("as->") || is("catch") || is("condp") {
        vec![CljRule::Block(2)]
    } else if is("defprotocol") || is("extend-protocol") || is("extend-type") {
        vec![CljRule::Block(1), i1]
    } else if is("defrecord") || is("deftype") || is("proxy") {
        vec![CljRule::Block(2), i1]
    } else if is("reify") {
        vec![i0, i1]
    } else if is("letfn") {
        vec![CljRule::Block(1), CljRule::Inner { depth: 2, idx: Some(0) }]
    } else {
        let w = chars_of("with-");
        if is_def_like_exec(h) || starts_with_at(h, 0, w.as_slice()) {
            vec![i0]
        } else {
            Vec::new()
        }
    }
}

proof fn lemma_rules_small(h: Seq<char>, d: Dialect)
    ensures
        forall|k: int|
            0 <= k < rules_for(h, d).len() ==> match #[trigger] rules_for(h, d)[k] {
                CljRule::Block(n) => n <= 2,
                CljRule::Inner { depth, idx } => depth <= 2,
            },
{
}

/// Push the enclosing lists of `off` among `data` (see [`stack_at`]).
fn stack_at_exec<'n>(data: &'n [Node], off: usize, out: &mut Vec<(&'n Node, bool)>)
    ensures
        final(out)@.len() == old(out)@.len() + stack_at(data@, off as int).len(),
        forall|i: int| 0 <= i < old(out)@.len() ==> final(out)@[i] == old(out)@[i],
        forall|i: int|
            0 <= i < stack_at(data@, off as int).len() ==> (*final(out)@[old(out)@.len() + i].0, final(out)@[old(out)@.len() + i].1) == stack_at(data@, off as int)[i],
    decreases data@, 0nat,
{
    match first_containing_exec(data, off) {
        Some(k) => stack_in_exec(&data[k], off, false, out),
        None => {},
    }
}

fn stack_one_exec<'n>(n: &'n Node, off: usize, w: bool, out: &mut Vec<(&'n Node, bool)>)
    ensures
        final(out)@.len() == old(out)@.len() + stack_one(*n, off as int, w).len(),
        forall|i: int| 0 <= i < old(out)@.len() ==> final(out)@[i] == old(out)@[i],
        forall|i: int|
            0 <= i < stack_one(*n, off as int, w).len() ==> (*final(out)@[old(out)@.len() + i].0, final(out)@[old(out)@.len() + i].1) == stack_one(*n, off as int, w)[i],
    decreases *n, 1nat,
{
    if n.start < off && off < n.end {
        stack_in_exec(n, off, w, out);
    }
}

fn stack_in_exec<'n>(n: &'n Node, off: usize, w: bool, out: &mut Vec<(&'n Node, bool)>)
    ensures
        final(out)@.len() == old(out)@.len() + stack_in(*n, off as int, w).len(),
        forall|i: int| 0 <= i < old(out)@.len() ==> final(out)@[i] == old(out)@[i],
        forall|i: int|
            0 <= i < stack_in(*n, off as int, w).len() ==> (*final(out)@[old(out)@.len() + i].0, final(out)@[old(out)@.len() + i].1) == stack_in(*n, off as int, w)[i],
    decreases *n, 0nat,
{
    let ghost o0 = out@;
    match n.shape {
        Shape::List => {
            out.push((n, w));
            let ghost o1 = out@;
            stack_at_exec(n.items.as_slice(), off, out);
            assert forall|i: int| 0 <= i < stack_in(*n, off as int, w).len() implies (*out@[o0.len() + i].0, out@[o0.len()
                + i].1) == stack_in(*n, off as int, w)[i] by {
                if i > 0 {
                    assert(out@[o0.len() + i] == out@[o1.len() + (i - 1)]);
                }
            }
        },
        Shape::Prefixed => {
            let in_arg = match &n.arg {
                Some(a) => a.start < off && off < a.end,
                None => false,
            };
            if in_arg {
                match &n.arg {
                    Some(a) => stack_in_exec(a, off, false, out),
                    None => {},
                }
            } else {
                match &n.inner {
                    Some(i) => {
                        let rc = is_reader_cond_exec(n);
                        stack_one_exec(i, off, rc, out);
                    },
                    None => {},
                }
            }
        },
        Shape::HashLiteral => match &n.inner {
            Some(i) => stack_one_exec(i, off, false, out),
            None => {},
        },
        _ => {},
    }
}

fn first_at_exec(items: &[Node], s: usize) -> (r: Option<usize>)
    ensures
        match r {
            Some(k) => first_at(items@, s as int, 0) == Some(k as int),
            None => first_at(items@, s as int, 0) is None,
        },
{
    let mut k: usize = 0;
    while k < items.len()
        invariant
            k <= items@.len(),
            first_at(items@, s as int, 0) == first_at(items@, s as int, k as int),
        decreases items.len() - k,
    {
        if items[k].start == s {
            return Some(k);
        }
        k = k + 1;
    }
    None
}

fn rule_hit_exec(r: CljRule, depth: usize, items: &[Node], child: Option<&Node>) -> (b: bool)
    ensures
        b == rule_hit(r, depth as int, items@, match child {
            Some(c) => Some(*c),
            None => None,
        }),
{
    match r {
        CljRule::Inner { depth: dd, idx } => {
            if dd != depth {
                return false;
            }
            match idx {
                None => true,
                Some(want) => match child {
                    Some(c) => match first_at_exec(items, c.start) {
                        Some(p) => {
                            let a = if p > 0 {
                                p - 1
                            } else {
                                0
                            };
                            a == want
                        },
                        None => false,
                    },
                    None => false,
                },
            }
        },
        CljRule::Block(_) => false,
    }
}

fn rules_hit_exec(rules: &Vec<CljRule>, depth: usize, items: &[Node], child: Option<&Node>) -> (b: bool)
    ensures
        b == rules_hit(rules@, depth as int, items@, match child {
            Some(c) => Some(*c),
            None => None,
        }, 0),
{
    let ghost ch = match child {
        Some(c) => Some(*c),
        None => None::<Node>,
    };
    let mut k: usize = rules.len();
    let mut hit = false;
    while k > 0
        invariant
            k <= rules@.len(),
            ch == match child {
                Some(c) => Some(*c),
                None => None::<Node>,
            },
            hit == rules_hit(rules@, depth as int, items@, ch, k as int),
        decreases k,
    {
        let kk = k - 1;
        let here = rule_hit_exec(rules[kk], depth, items, child);
        hit = here || hit;
        k = kk;
    }
    hit
}

fn inner_at_depth_exec(st: &Vec<(&Node, bool)>, d: Dialect, depth: usize, Ghost(sv): Ghost<Seq<(Node, bool)>>) -> (b: bool)
    requires
        sv.len() == st@.len(),
        forall|i: int| 0 <= i < sv.len() ==> (*st@[i].0, st@[i].1) == sv[i],
    ensures
        b == inner_at_depth(sv, d, depth as int),
{
    let n = st.len();
    if depth >= n || depth >= 3 {
        return false;
    }
    let anc = st[n - 1 - depth].0;
    assert(*anc == sv[n - 1 - depth].0);
    match anc.shape {
        Shape::List => {},
        _ => return false,
    }
    if anc.items.len() == 0 {
        return false;
    }
    match clj_head_exec(&anc.items[0]) {
        Some(h) => {
            let rules = rules_exec(h.as_slice(), d);
            let child = if depth > 0 {
                assert(*st@[n - depth].0 == sv[n - depth].0);
                Some(st[n - depth].0)
            } else {
                None
            };
            rules_hit_exec(&rules, depth, anc.items.as_slice(), child)
        },
        None => false,
    }
}

fn first_block_exec(rules: &Vec<CljRule>) -> (r: Option<usize>)
    ensures
        match r {
            Some(n) => first_block(rules@, 0) == Some(n as int),
            None => first_block(rules@, 0) is None,
        },
{
    let mut k: usize = 0;
    while k < rules.len()
        invariant
            k <= rules@.len(),
            first_block(rules@, 0) == first_block(rules@, k as int),
        decreases rules.len() - k,
    {
        match rules[k] {
            CljRule::Block(n) => return Some(n),
            _ => {},
        }
        k = k + 1;
    }
    None
}

fn count_before_exec(items: &[Node], off: usize) -> (r: usize)
    ensures
        r == count_before(items@, off as int, items@.len() as int),
{
    let mut c: usize = 0;
    let mut k: usize = 0;
    while k < items.len()
        invariant
            k <= items@.len(),
            c == count_before(items@, off as int, k as int),
            c <= k,
        decreases items.len() - k,
    {
        if form_start_exec(&items[k]) < off {
            c = c + 1;
        }
        k = k + 1;
    }
    c
}

fn default_indent_exec(f: &Frame, ni: &[usize], items: &[Node], open_col: usize) -> (r: usize)
    requires
        f.wf(),
    ensures
        r == default_indent(f.env(), ni@, items@, open_col as int),
{
    if items.len() > 1 && line_at_exec(f, form_start_exec(&items[1])) == line_at_exec(f, items[0].start) {
        col_exec(f, ni, items[1].start)
    } else {
        open_col.saturating_add(1)
    }
}

fn begins_line_exec(f: &Frame, items: &[Node], j: usize) -> (b: bool)
    requires
        f.wf(),
    ensures
        b == begins_line(f.env(), items@, j as int),
{
    if j == 0 || j >= items.len() {
        return true;
    }
    let prev_end = if items[j - 1].end > 0 {
        items[j - 1].end - 1
    } else {
        0
    };
    line_at_exec(f, items[j].start) > line_at_exec(f, prev_end)
}

fn coll_indent_exec(f: &Frame, ni: &[usize], items: &[Node], open_off: usize, open_col: usize, set: bool) -> (r: usize)
    requires
        f.wf(),
    ensures
        r == coll_indent(f.env(), ni@, items@, open_off as int, open_col as int, set),
{
    if items.len() > 0 && line_at_exec(f, items[0].start) == line_at_exec(f, open_off) {
        col_exec(f, ni, items[0].start)
    } else {
        open_col.saturating_add(if set {
            2
        } else {
            1
        })
    }
}

/// The Clojure/Phel indent of the code line at `off` whose innermost list
/// is `c` (see [`clj_indent`]).
pub(crate) fn clj_indent_exec(f: &Frame, ni: &[usize], c: &Node, off: usize, fixed: bool, d: Dialect) -> (r: usize)
    requires
        f.wf(),
    ensures
        r == clj_indent(f.env(), ni@, *c, off as int, fixed, d),
{
    let ghost e = f.env();
    proof {
        f.lemma_env();
    }
    let body = match d {
        Dialect::Islisp => 4,
        _ => f.cfg.body_indent,
    };
    match c.shape {
        Shape::List => {},
        _ => return 0,
    }
    let items = c.items.as_slice();
    let open_col = col_exec(f, ni, c.start);
    let key = chars_of(c.key.as_str());
    if !eq_lit(key.as_slice(), "Round") {
        let set = eq_lit(key.as_slice(), "Set");
        return coll_indent_exec(f, ni, items, c.start, open_col, set);
    }
    let pos = count_before_exec(items, off);
    let mut st: Vec<(&Node, bool)> = Vec::new();
    stack_at_exec(f.forms, off, &mut st);
    let ghost sv = stack_at(e.forms, off as int);
    assert(st@.len() == sv.len());
    let head = if items.len() > 0 {
        clj_head_exec(&items[0])
    } else {
        None
    };
    if st.len() > 0 && st[st.len() - 1].1 {
        assert(st@[st@.len() - 1].1 == sv.last().1);
        return coll_indent_exec(f, ni, items, c.start, open_col, false);
    }
    assert(!(sv.len() > 0 && sv.last().1)) by {
        if sv.len() > 0 {
            assert(st@[st@.len() - 1].1 == sv.last().1);
        }
    }
    if fixed {
        return match head {
            Some(_) => open_col.saturating_add(body),
            None => default_indent_exec(f, ni, items, open_col),
        };
    }
    if inner_at_depth_exec(&st, d, 0, Ghost(sv)) || inner_at_depth_exec(&st, d, 1, Ghost(sv))
        || inner_at_depth_exec(&st, d, 2, Ghost(sv)) {
        return open_col.saturating_add(body);
    }
    match head {
        Some(h) => {
            let rules = rules_exec(h.as_slice(), d);
            proof {
                lemma_rules_small(h@, d);
            }
            match first_block_exec(&rules) {
                Some(n) => {
                    proof {
                        lemma_first_block_in(rules@, 0);
                    }
                    if d != Dialect::Phel && pos >= 1 && pos - 1 < n {
                        default_indent_exec(f, ni, items, open_col)
                    } else if n + 1 >= items.len() {
                        open_col.saturating_add(body)
                    } else if items[n + 1].start >= off || begins_line_exec(f, items, n + 1) {
                        open_col.saturating_add(body)
                    } else {
                        default_indent_exec(f, ni, items, open_col)
                    }
                },
                None => default_indent_exec(f, ni, items, open_col),
            }
        },
        None => default_indent_exec(f, ni, items, open_col),
    }
}

proof fn lemma_first_block_in(rules: Seq<CljRule>, k: int)
    ensures
        match first_block(rules, k) {
            Some(n) => exists|j: int| 0 <= j < rules.len() && #[trigger] rules[j] == CljRule::Block(n as usize),
            None => true,
        },
    decreases rules.len() - k,
{
    if 0 <= k < rules.len() {
        match rules[k] {
            CljRule::Block(n) => {
                assert(rules[k] == CljRule::Block(n));
            },
            _ => lemma_first_block_in(rules, k + 1),
        }
    }
}

/// The heads cljfmt's default indents give `[:block 1]`.
pub open spec fn cljfmt_block_one(n: Seq<char>) -> bool {
    n == "binding"@
        || n == "case"@
        || n == "cond->"@
        || n == "cond->>"@
        || n == "defstruct"@
        || n == "doseq"@
        || n == "dotimes"@
        || n == "doto"@
        || n == "extend"@
        || n == "for"@
        || n == "go-loop"@
        || n == "if"@
        || n == "if-let"@
        || n == "if-not"@
        || n == "if-some"@
        || n == "let"@
        || n == "let*"@
        || n == "locking"@
        || n == "loop"@
        || n == "match"@
        || n == "ns"@
        || n == "struct-map"@
        || n == "testing"@
        || n == "when"@
        || n == "when-first"@
        || n == "when-let"@
        || n == "when-not"@
        || n == "when-some"@
        || n == "while"@
        || n == "with-local-vars"@
        || n == "with-open"@
        || n == "with-precision"@
        || n == "with-redefs"@
        || n == "let-routes"@
}

/// The heads `phel format` gives `[:block 1]`.
pub open spec fn phel_format_block_one(n: Seq<char>) -> bool {
    n == "if"@
        || n == "if-not"@
        || n == "foreach"@
        || n == "for"@
        || n == "dofor"@
        || n == "let"@
        || n == "ns"@
        || n == "loop"@
        || n == "case"@
        || n == "when"@
        || n == "when-not"@
        || n == "when-let"@
        || n == "when-some"@
        || n == "if-let"@
        || n == "if-some"@
        || n == "binding"@
        || n == "when-first"@
        || n == "doseq"@
        || n == "dotimes"@
        || n == "letfn"@
        || n == "with-redefs"@
        || n == "with-bindings"@
        || n == "extend-type"@
        || n == "extend-protocol"@
}

proof fn lemma_cljfmt_block_one(n: Seq<char>)
    requires
        cljfmt_block_one(n),
    ensures
        clj_rules(n) == seq![CljRule::Block(1)],
{
    reveal_strlit("def");
    assert("def"@.len() == 3);
    reveal_strlit("defn");
    assert("defn"@.len() == 4);
    reveal_strlit("defn-");
    assert("defn-"@.len() == 5);
    reveal_strlit("defmacro");
    assert("defmacro"@.len() == 8);
    reveal_strlit("defmethod");
    assert("defmethod"@.len() == 9);
    reveal_strlit("defmulti");
    assert("defmulti"@.len() == 8);
    reveal_strlit("defonce");
    assert("defonce"@.len() == 7);
    reveal_strlit("deftest");
    assert("deftest"@.len() == 7);
    reveal_strlit("fn");
    assert("fn"@.len() == 2);
    reveal_strlit("bound-fn");
    assert("bound-fn"@.len() == 8);
    reveal_strlit("fdef");
    assert("fdef"@.len() == 4);
    reveal_strlit("use-fixtures");
    assert("use-fixtures"@.len() == 12);
    reveal_strlit("ANY");
    assert("ANY"@.len() == 3);
    reveal_strlit("DELETE");
    assert("DELETE"@.len() == 6);
    reveal_strlit("GET");
    assert("GET"@.len() == 3);
    reveal_strlit("HEAD");
    assert("HEAD"@.len() == 4);
    reveal_strlit("OPTIONS");
    assert("OPTIONS"@.len() == 7);
    reveal_strlit("PATCH");
    assert("PATCH"@.len() == 5);
    reveal_strlit("POST");
    assert("POST"@.len() == 4);
    reveal_strlit("PUT");
    assert("PUT"@.len() == 3);
    reveal_strlit("context");
    assert("context"@.len() == 7);
    reveal_strlit("defroutes");
    assert("defroutes"@.len() == 9);
    reveal_strlit("rfn");
    assert("rfn"@.len() == 3);
    reveal_strlit("alt!");
    assert("alt!"@.len() == 4);
    reveal_strlit("alt!!");
    assert("alt!!"@.len() == 5);
    reveal_strlit("comment");
    assert("comment"@.len() == 7);
    reveal_strlit("cond");
    assert("cond"@.len() == 4);
    reveal_strlit("delay");
    assert("delay"@.len() == 5);
    reveal_strlit("do");
    assert("do"@.len() == 2);
    reveal_strlit("finally");
    assert("finally"@.len() == 7);
    reveal_strlit("future");
    assert("future"@.len() == 6);
    reveal_strlit("go");
    assert("go"@.len() == 2);
    reveal_strlit("thread");
    assert("thread"@.len() == 6);
    reveal_strlit("try");
    assert("try"@.len() == 3);
    reveal_strlit("with-out-str");
    assert("with-out-str"@.len() == 12);
    if n == "binding"@ {
        reveal_strlit("binding");
        assert("binding"@.len() == 7);
        assert("binding"@[0] == 'b');
        assert("defonce"@[0] == 'd');
        assert("binding"@[0] == 'b');
        assert("deftest"@[0] == 'd');
        assert("binding"@[0] == 'b');
        assert("OPTIONS"@[0] == 'O');
        assert("binding"@[0] == 'b');
        assert("context"@[0] == 'c');
        assert("binding"@[0] == 'b');
        assert("comment"@[0] == 'c');
        assert("binding"@[0] == 'b');
        assert("finally"@[0] == 'f');
    } else if n == "case"@ {
        reveal_strlit("case");
        assert("case"@.len() == 4);
        assert("case"@[0] == 'c');
        assert("defn"@[0] == 'd');
        assert("case"@[0] == 'c');
        assert("fdef"@[0] == 'f');
        assert("case"@[0] == 'c');
        assert("HEAD"@[0] == 'H');
        assert("case"@[0] == 'c');
        assert("POST"@[0] == 'P');
        assert("case"@[0] == 'c');
        assert("alt!"@[0] == 'a');
        assert("case"@[1] == 'a');
        assert("cond"@[1] == 'o');
    } else if n == "cond->"@ {
        reveal_strlit("cond->");
        assert("cond->"@.len() == 6);
        assert("cond->"@[0] == 'c');
        assert("DELETE"@[0] == 'D');
        assert("cond->"@[0] == 'c');
        assert("future"@[0] == 'f');
        assert("cond->"@[0] == 'c');
        assert("thread"@[0] == 't');
    } else if n == "cond->>"@ {
        reveal_strlit("cond->>");
        assert("cond->>"@.len() == 7);
        assert("cond->>"@[0] == 'c');
        assert("defonce"@[0] == 'd');
        assert("cond->>"@[0] == 'c');
        assert("deftest"@[0] == 'd');
        assert("cond->>"@[0] == 'c');
        assert("OPTIONS"@[0] == 'O');
        assert("cond->>"@[3] == 'd');
        assert("context"@[3] == 't');
        assert("cond->>"@[2] == 'n');
        assert("comment"@[2] == 'm');
        assert("cond->>"@[0] == 'c');
        assert("finally"@[0] == 'f');
    } else if n == "defstruct"@ {
        reveal_strlit("defstruct");
        assert("defstruct"@.len() == 9);
        assert("defstruct"@[3] == 's');
        assert("defmethod"@[3] == 'm');
        assert("defstruct"@[3] == 's');
        assert("defroutes"@[3] == 'r');
    } else if n == "doseq"@ {
        reveal_strlit("doseq");
        assert("doseq"@.len() == 5);
        assert("doseq"@[1] == 'o');
        assert("defn-"@[1] == 'e');
        assert("doseq"@[0] == 'd');
        assert("PATCH"@[0] == 'P');
        assert("doseq"@[0] == 'd');
        assert("alt!!"@[0] == 'a');
        assert("doseq"@[1] == 'o');
        assert("delay"@[1] == 'e');
    } else if n == "dotimes"@ {
        reveal_strlit("dotimes");
        assert("dotimes"@.len() == 7);
        assert("dotimes"@[1] == 'o');
        assert("defonce"@[1] == 'e');
        assert("dotimes"@[1] == 'o');
        assert("deftest"@[1] == 'e');
        assert("dotimes"@[0] == 'd');
        assert("OPTIONS"@[0] == 'O');
        assert("dotimes"@[0] == 'd');
        assert("context"@[0] == 'c');
        assert("dotimes"@[0] == 'd');
        assert("comment"@[0] == 'c');
        assert("dotimes"@[0] == 'd');
        assert("finally"@[0] == 'f');
    } else if n == "doto"@ {
        reveal_strlit("doto");
        assert("doto"@.len() == 4);
        assert("doto"@[1] == 'o');
        assert("defn"@[1] == 'e');
        assert("doto"@[0] == 'd');
        assert("fdef"@[0] == 'f');
        assert("doto"@[0] == 'd');
        assert("HEAD"@[0] == 'H');
        assert("doto"@[0] == 'd');
        assert("POST"@[0] == 'P');
        assert("doto"@[0] == 'd');
        assert("alt!"@[0] == 'a');
        assert("doto"@[0] == 'd');
        assert("cond"@[0] == 'c');
    } else if n == "extend"@ {
        reveal_strlit("extend");
        assert("extend"@.len() == 6);
        assert("extend"@[0] == 'e');
        assert("DELETE"@[0] == 'D');
        assert("extend"@[0] == 'e');
        assert("future"@[0] == 'f');
        assert("extend"@[0] == 'e');
        assert("thread"@[0] == 't');
    } else if n == "for"@ {
        reveal_strlit("for");
        assert("for"@.len() == 3);
        assert("for"@[0] == 'f');
        assert("def"@[0] == 'd');
        assert("for"@[0] == 'f');
        assert("ANY"@[0] == 'A');
        assert("for"@[0] == 'f');
        assert("GET"@[0] == 'G');
        assert("for"@[0] == 'f');
        assert("PUT"@[0] == 'P');
        assert("for"@[0] == 'f');
        assert("rfn"@[0] == 'r');
        assert("for"@[0] == 'f');
        assert("try"@[0] == 't');
    } else if n == "go-loop"@ {
        reveal_strlit("go-loop");
        assert("go-loop"@.len() == 7);
        assert("go-loop"@[0] == 'g');
        assert("defonce"@[0] == 'd');
        assert("go-loop"@[0] == 'g');
        assert("deftest"@[0] == 'd');
        assert("go-loop"@[0] == 'g');
        assert("OPTIONS"@[0] == 'O');
        assert("go-loop"@[0] == 'g');
        assert("context"@[0] == 'c');
        assert("go-loop"@[0] == 'g');
        assert("comment"@[0] == 'c');
        assert("go-loop"@[0] == 'g');
        assert("finally"@[0] == 'f');
    } else if n == "if"@ {
        reveal_strlit("if");
        assert("if"@.len() == 2);
        assert("if"@[0] == 'i');
        assert("fn"@[0] == 'f');
        assert("if"@[0] == 'i');
        assert("do"@[0] == 'd');
        assert("if"@[0] == 'i');
        assert("go"@[0] == 'g');
    } else if n == "if-let"@ {
        reveal_strlit("if-let");
        assert("if-let"@.len() == 6);
        assert("if-let"@[0] == 'i');
        assert("DELETE"@[0] == 'D');
        assert("if-let"@[0] == 'i');
        assert("future"@[0] == 'f');
        assert("if-let"@[0] == 'i');
        assert("thread"@[0] == 't');
    } else if n == "if-not"@ {
        reveal_strlit("if-not");
        assert("if-not"@.len() == 6);
        assert("if-not"@[0] == 'i');
        assert("DELETE"@[0] == 'D');
        assert("if-not"@[0] == 'i');
        assert("future"@[0] == 'f');
        assert("if-not"@[0] == 'i');
        assert("thread"@[0] == 't');
    } else if n == "if-some"@ {
        reveal_strlit("if-some");
        assert("if-some"@.len() == 7);
        assert("if-some"@[0] == 'i');
        assert("defonce"@[0] == 'd');
        assert("if-some"@[0] == 'i');
        assert("deftest"@[0] == 'd');
        assert("if-some"@[0] == 'i');
        assert("OPTIONS"@[0] == 'O');
        assert("if-some"@[0] == 'i');
        assert("context"@[0] == 'c');
        assert("if-some"@[0] == 'i');
        assert("comment"@[0] == 'c');
        assert("if-some"@[0] == 'i');
        assert("finally"@[0] == 'f');
    } else if n == "let"@ {
        reveal_strlit("let");
        assert("let"@.len() == 3);
        assert("let"@[0] == 'l');
        assert("def"@[0] == 'd');
        assert("let"@[0] == 'l');
        assert("ANY"@[0] == 'A');
        assert("let"@[0] == 'l');
        assert("GET"@[0] == 'G');
        assert("let"@[0] == 'l');
        assert("PUT"@[0] == 'P');
        assert("let"@[0] == 'l');
        assert("rfn"@[0] == 'r');
        assert("let"@[0] == 'l');
        assert("try"@[0] == 't');
    } else if n == "let*"@ {
        reveal_strlit("let*");
        assert("let*"@.len() == 4);
        assert("let*"@[0] == 'l');
        assert("defn"@[0] == 'd');
        assert("let*"@[0] == 'l');
        assert("fdef"@[0] == 'f');
        assert("let*"@[0] == 'l');
        assert("HEAD"@[0] == 'H');
        assert("let*"@[0] == 'l');
        assert("POST"@[0] == 'P');
        assert("let*"@[0] == 'l');
        assert("alt!"@[0] == 'a');
        assert("let*"@[0] == 'l');
        assert("cond"@[0] == 'c');
    } else if n == "locking"@ {
        reveal_strlit("locking");
        assert("locking"@.len() == 7);
        assert("locking"@[0] == 'l');
        assert("defonce"@[0] == 'd');
        assert("locking"@[0] == 'l');
        assert("deftest"@[0] == 'd');
        assert("locking"@[0] == 'l');
        assert("OPTIONS"@[0] == 'O');
        assert("locking"@[0] == 'l');
        assert("context"@[0] == 'c');
        assert("locking"@[0] == 'l');
        assert("comment"@[0] == 'c');
        assert("locking"@[0] == 'l');
        assert("finally"@[0] == 'f');
    } else if n == "loop"@ {
        reveal_strlit("loop");
        assert("loop"@.len() == 4);
        assert("loop"@[0] == 'l');
        assert("defn"@[0] == 'd');
        assert("loop"@[0] == 'l');
        assert("fdef"@[0] == 'f');
        assert("loop"@[0] == 'l');
        assert("HEAD"@[0] == 'H');
        assert("loop"@[0] == 'l');
        assert("POST"@[0] == 'P');
        assert("loop"@[0] == 'l');
        assert("alt!"@[0] == 'a');
        assert("loop"@[0] == 'l');
        assert("cond"@[0] == 'c');
    } else if n == "match"@ {
        reveal_strlit("match");
        assert("match"@.len() == 5);
        assert("match"@[0] == 'm');
        assert("defn-"@[0] == 'd');
        assert("match"@[0] == 'm');
        assert("PATCH"@[0] == 'P');
        assert("match"@[0] == 'm');
        assert("alt!!"@[0] == 'a');
        assert("match"@[0] == 'm');
        assert("delay"@[0] == 'd');
    } else if n == "ns"@ {
        reveal_strlit("ns");
        assert("ns"@.len() == 2);
        assert("ns"@[0] == 'n');
        assert("fn"@[0] == 'f');
        assert("ns"@[0] == 'n');
        assert("do"@[0] == 'd');
        assert("ns"@[0] == 'n');
        assert("go"@[0] == 'g');
    } else if n == "struct-map"@ {
        reveal_strlit("struct-map");
        assert("struct-map"@.len() == 10);
    } else if n == "testing"@ {
        reveal_strlit("testing");
        assert("testing"@.len() == 7);
        assert("testing"@[0] == 't');
        assert("defonce"@[0] == 'd');
        assert("testing"@[0] == 't');
        assert("deftest"@[0] == 'd');
        assert("testing"@[0] == 't');
        assert("OPTIONS"@[0] == 'O');
        assert("testing"@[0] == 't');
        assert("context"@[0] == 'c');
        assert("testing"@[0] == 't');
        assert("comment"@[0] == 'c');
        assert("testing"@[0] == 't');
        assert("finally"@[0] == 'f');
    } else if n == "when"@ {
        reveal_strlit("when");
        assert("when"@.len() == 4);
        assert("when"@[0] == 'w');
        assert("defn"@[0] == 'd');
        assert("when"@[0] == 'w');
        assert("fdef"@[0] == 'f');
        assert("when"@[0] == 'w');
        assert("HEAD"@[0] == 'H');
        assert("when"@[0] == 'w');
        assert("POST"@[0] == 'P');
        assert("when"@[0] == 'w');
        assert("alt!"@[0] == 'a');
        assert("when"@[0] == 'w');
        assert("cond"@[0] == 'c');
    } else if n == "when-first"@ {
        reveal_strlit("when-first");
        assert("when-first"@.len() == 10);
    } else if n == "when-let"@ {
        reveal_strlit("when-let");
        assert("when-let"@.len() == 8);
        assert("when-let"@[0] == 'w');
        assert("defmacro"@[0] == 'd');
        assert("when-let"@[0] == 'w');
        assert("defmulti"@[0] == 'd');
        assert("when-let"@[0] == 'w');
        assert("bound-fn"@[0] == 'b');
    } else if n == "when-not"@ {
        reveal_strlit("when-not");
        assert("when-not"@.len() == 8);
        assert("when-not"@[0] == 'w');
        assert("defmacro"@[0] == 'd');
        assert("when-not"@[0] == 'w');
        assert("defmulti"@[0] == 'd');
        assert("when-not"@[0] == 'w');
        assert("bound-fn"@[0] == 'b');
    } else if n == "when-some"@ {
        reveal_strlit("when-some");
        assert("when-some"@.len() == 9);
        assert("when-some"@[0] == 'w');
        assert("defmethod"@[0] == 'd');
        assert("when-some"@[0] == 'w');
        assert("defroutes"@[0] == 'd');
    } else if n == "while"@ {
        reveal_strlit("while");
        assert("while"@.len() == 5);
        assert("while"@[0] == 'w');
        assert("defn-"@[0] == 'd');
        assert("while"@[0] == 'w');
        assert("PATCH"@[0] == 'P');
        assert("while"@[0] == 'w');
        assert("alt!!"@[0] == 'a');
        assert("while"@[0] == 'w');
        assert("delay"@[0] == 'd');
    } else if n == "with-local-vars"@ {
        reveal_strlit("with-local-vars");
        assert("with-local-vars"@.len() == 15);
    } else if n == "with-open"@ {
        reveal_strlit("with-open");
        assert("with-open"@.len() == 9);
        assert("with-open"@[0] == 'w');
        assert("defmethod"@[0] == 'd');
        assert("with-open"@[0] == 'w');
        assert("defroutes"@[0] == 'd');
    } else if n == "with-precision"@ {
        reveal_strlit("with-precision");
        assert("with-precision"@.len() == 14);
    } else if n == "with-redefs"@ {
        reveal_strlit("with-redefs");
        assert("with-redefs"@.len() == 11);
    } else if n == "let-routes"@ {
        reveal_strlit("let-routes");
        assert("let-routes"@.len() == 10);
    }
    assert(seq![CljRule::Block(1)] =~= seq![CljRule::Block(1)]);
}

proof fn lemma_phel_block_one(n: Seq<char>)
    requires
        phel_format_block_one(n),
    ensures
        phel_rules(n) == seq![CljRule::Block(1)],
{
    reveal_strlit("def");
    assert("def"@.len() == 3);
    reveal_strlit("def-");
    assert("def-"@.len() == 4);
    reveal_strlit("defn");
    assert("defn"@.len() == 4);
    reveal_strlit("defn-");
    assert("defn-"@.len() == 5);
    reveal_strlit("defmacro");
    assert("defmacro"@.len() == 8);
    reveal_strlit("defmacro-");
    assert("defmacro-"@.len() == 9);
    reveal_strlit("deftest");
    assert("deftest"@.len() == 7);
    reveal_strlit("fn");
    assert("fn"@.len() == 2);
    reveal_strlit("defstruct");
    assert("defstruct"@.len() == 9);
    reveal_strlit("defrecord");
    assert("defrecord"@.len() == 9);
    reveal_strlit("definterface");
    assert("definterface"@.len() == 12);
    reveal_strlit("defexception");
    assert("defexception"@.len() == 12);
    reveal_strlit("defenum");
    assert("defenum"@.len() == 7);
    reveal_strlit("defprotocol");
    assert("defprotocol"@.len() == 11);
    reveal_strlit("defmulti");
    assert("defmulti"@.len() == 8);
    reveal_strlit("defmethod");
    assert("defmethod"@.len() == 9);
    reveal_strlit("defonce");
    assert("defonce"@.len() == 7);
    reveal_strlit("reify");
    assert("reify"@.len() == 5);
    reveal_strlit("do");
    assert("do"@.len() == 2);
    reveal_strlit("cond");
    assert("cond"@.len() == 4);
    reveal_strlit("try");
    assert("try"@.len() == 3);
    reveal_strlit("finally");
    assert("finally"@.len() == 7);
    reveal_strlit("with-output-buffer");
    assert("with-output-buffer"@.len() == 18);
    reveal_strlit("delay");
    assert("delay"@.len() == 5);
    reveal_strlit("lazy-seq");
    assert("lazy-seq"@.len() == 8);
    if n == "if"@ {
        reveal_strlit("if");
        assert("if"@.len() == 2);
        assert("if"@[0] == 'i');
        assert("fn"@[0] == 'f');
        assert("if"@[0] == 'i');
        assert("do"@[0] == 'd');
    } else if n == "if-not"@ {
        reveal_strlit("if-not");
        assert("if-not"@.len() == 6);
    } else if n == "foreach"@ {
        reveal_strlit("foreach");
        assert("foreach"@.len() == 7);
        assert("foreach"@[0] == 'f');
        assert("deftest"@[0] == 'd');
        assert("foreach"@[0] == 'f');
        assert("defenum"@[0] == 'd');
        assert("foreach"@[0] == 'f');
        assert("defonce"@[0] == 'd');
        assert("foreach"@[1] == 'o');
        assert("finally"@[1] == 'i');
    } else if n == "for"@ {
        reveal_strlit("for");
        assert("for"@.len() == 3);
        assert("for"@[0] == 'f');
        assert("def"@[0] == 'd');
        assert("for"@[0] == 'f');
        assert("try"@[0] == 't');
    } else if n == "dofor"@ {
        reveal_strlit("dofor");
        assert("dofor"@.len() == 5);
        assert("dofor"@[1] == 'o');
        assert("defn-"@[1] == 'e');
        assert("dofor"@[0] == 'd');
        assert("reify"@[0] == 'r');
        assert("dofor"@[1] == 'o');
        assert("delay"@[1] == 'e');
    } else if n == "let"@ {
        reveal_strlit("let");
        assert("let"@.len() == 3);
        assert("let"@[0] == 'l');
        assert("def"@[0] == 'd');
        assert("let"@[0] == 'l');
        assert("try"@[0] == 't');
    } else if n == "ns"@ {
        reveal_strlit("ns");
        assert("ns"@.len() == 2);
        assert("ns"@[0] == 'n');
        assert("fn"@[0] == 'f');
        assert("ns"@[0] == 'n');
        assert("do"@[0] == 'd');
    } else if n == "loop"@ {
        reveal_strlit("loop");
        assert("loop"@.len() == 4);
        assert("loop"@[0] == 'l');
        assert("def-"@[0] == 'd');
        assert("loop"@[0] == 'l');
        assert("defn"@[0] == 'd');
        assert("loop"@[0] == 'l');
        assert("cond"@[0] == 'c');
    } else if n == "case"@ {
        reveal_strlit("case");
        assert("case"@.len() == 4);
        assert("case"@[0] == 'c');
        assert("def-"@[0] == 'd');
        assert("case"@[0] == 'c');
        assert("defn"@[0] == 'd');
        assert("case"@[1] == 'a');
        assert("cond"@[1] == 'o');
    } else if n == "when"@ {
        reveal_strlit("when");
        assert("when"@.len() == 4);
        assert("when"@[0] == 'w');
        assert("def-"@[0] == 'd');
        assert("when"@[0] == 'w');
        assert("defn"@[0] == 'd');
        assert("when"@[0] == 'w');
        assert("cond"@[0] == 'c');
    } else if n == "when-not"@ {
        reveal_strlit("when-not");
        assert("when-not"@.len() == 8);
        assert("when-not"@[0] == 'w');
        assert("defmacro"@[0] == 'd');
        assert("when-not"@[0] == 'w');
        assert("defmulti"@[0] == 'd');
        assert("when-not"@[0] == 'w');
        assert("lazy-seq"@[0] == 'l');
    } else if n == "when-let"@ {
        reveal_strlit("when-let");
        assert("when-let"@.len() == 8);
        assert("when-let"@[0] == 'w');
        assert("defmacro"@[0] == 'd');
        assert("when-let"@[0] == 'w');
        assert("defmulti"@[0] == 'd');
        assert("when-let"@[0] == 'w');
        assert("lazy-seq"@[0] == 'l');
    } else if n == "when-some"@ {
        reveal_strlit("when-some");
        assert("when-some"@.len() == 9);
        assert("when-some"@[0] == 'w');
        assert("defmacro-"@[0] == 'd');
        assert("when-some"@[0] == 'w');
        assert("defstruct"@[0] == 'd');
        assert("when-some"@[0] == 'w');
        assert("defrecord"@[0] == 'd');
        assert("when-some"@[0] == 'w');
        assert("defmethod"@[0] == 'd');
    } else if n == "if-let"@ {
        reveal_strlit("if-let");
        assert("if-let"@.len() == 6);
    } else if n == "if-some"@ {
        reveal_strlit("if-some");
        assert("if-some"@.len() == 7);
        assert("if-some"@[0] == 'i');
        assert("deftest"@[0] == 'd');
        assert("if-some"@[0] == 'i');
        assert("defenum"@[0] == 'd');
        assert("if-some"@[0] == 'i');
        assert("defonce"@[0] == 'd');
        assert("if-some"@[0] == 'i');
        assert("finally"@[0] == 'f');
    } else if n == "binding"@ {
        reveal_strlit("binding");
        assert("binding"@.len() == 7);
        assert("binding"@[0] == 'b');
        assert("deftest"@[0] == 'd');
        assert("binding"@[0] == 'b');
        assert("defenum"@[0] == 'd');
        assert("binding"@[0] == 'b');
        assert("defonce"@[0] == 'd');
        assert("binding"@[0] == 'b');
        assert("finally"@[0] == 'f');
    } else if n == "when-first"@ {
        reveal_strlit("when-first");
        assert("when-first"@.len() == 10);
    } else if n == "doseq"@ {
        reveal_strlit("doseq");
        assert("doseq"@.len() == 5);
        assert("doseq"@[1] == 'o');
        assert("defn-"@[1] == 'e');
        assert("doseq"@[0] == 'd');
        assert("reify"@[0] == 'r');
        assert("doseq"@[1] == 'o');
        assert("delay"@[1] == 'e');
    } else if n == "dotimes"@ {
        reveal_strlit("dotimes");
        assert("dotimes"@.len() == 7);
        assert("dotimes"@[1] == 'o');
        assert("deftest"@[1] == 'e');
        assert("dotimes"@[1] == 'o');
        assert("defenum"@[1] == 'e');
        assert("dotimes"@[1] == 'o');
        assert("defonce"@[1] == 'e');
        assert("dotimes"@[0] == 'd');
        assert("finally"@[0] == 'f');
    } else if n == "letfn"@ {
        reveal_strlit("letfn");
        assert("letfn"@.len() == 5);
        assert("letfn"@[0] == 'l');
        assert("defn-"@[0] == 'd');
        assert("letfn"@[0] == 'l');
        assert("reify"@[0] == 'r');
        assert("letfn"@[0] == 'l');
        assert("delay"@[0] == 'd');
    } else if n == "with-redefs"@ {
        reveal_strlit("with-redefs");
        assert("with-redefs"@.len() == 11);
        assert("with-redefs"@[0] == 'w');
        assert("defprotocol"@[0] == 'd');
    } else if n == "with-bindings"@ {
        reveal_strlit("with-bindings");
        assert("with-bindings"@.len() == 13);
    } else if n == "extend-type"@ {
        reveal_strlit("extend-type");
        assert("extend-type"@.len() == 11);
        assert("extend-type"@[0] == 'e');
        assert("defprotocol"@[0] == 'd');
    } else if n == "extend-protocol"@ {
        reveal_strlit("extend-protocol");
        assert("extend-protocol"@.len() == 15);
    }
    assert(seq![CljRule::Block(1)] =~= seq![CljRule::Block(1)]);
}

/// cljfmt's and `phel format`'s `[:block 1]` heads (`doseq`, `let`,
/// `when`, `binding`, …) take exactly that rule: one special argument,
/// then the body.
pub proof fn law_block_one_heads(n: Seq<char>)
    ensures
        cljfmt_block_one(n) ==> rules_for(n, Dialect::Clojure) == seq![CljRule::Block(1)],
        phel_format_block_one(n) ==> rules_for(n, Dialect::Phel) == seq![CljRule::Block(1)],
{
    if cljfmt_block_one(n) {
        lemma_cljfmt_block_one(n);
    }
    if phel_format_block_one(n) {
        lemma_phel_block_one(n);
    }
}

/// In a round list headed by a `[:block 1]` head of cljfmt's defaults, a
/// line at or after the body, once the head and the first argument have
/// begun, is indented at the list's open column plus `lisp-body-indent`
/// when the first body form begins its own line (or is not there yet),
/// as long as no enclosing `:inner` rule or collection decides instead.
pub proof fn law_cljfmt_block_one_body(e: Env, ni: Seq<usize>, c: Node, off: int)
    requires
        c.shape == Shape::List,
        c.key@ == "Round"@,
        c.items@.len() >= 2,
        c.items@[0].shape == Shape::Symbol,
        cljfmt_block_one(strip_ns(c.items@[0].key@)),
        count_before(c.items@, off, c.items@.len() as int) >= 2,
        c.items@.len() > 2 ==> (c.items@[2].start >= off || begins_line(e, c.items@, 2)),
        !(stack_at(e.forms, off).len() > 0 && stack_at(e.forms, off).last().1),
        !inner_applies(stack_at(e.forms, off), Dialect::Clojure),
    ensures
        clj_indent(e, ni, c, off, false, Dialect::Clojure) == sat(col(e, ni, c.start as int) + e.cfg.body_indent),
{
    let h = strip_ns(c.items@[0].key@);
    assert(clj_head(c.items@[0]) == Some(h));
    lemma_cljfmt_block_one(h);
    assert(first_block(seq![CljRule::Block(1)], 0) == Some(1int));
}

/// The heads cljfmt's default indents give `[:inner 0]`.
pub open spec fn cljfmt_inner_zero(n: Seq<char>) -> bool {
    n == "def"@
        || n == "defn"@
        || n == "defn-"@
        || n == "defmacro"@
        || n == "defmethod"@
        || n == "defmulti"@
        || n == "defonce"@
        || n == "deftest"@
        || n == "fn"@
        || n == "bound-fn"@
        || n == "fdef"@
        || n == "use-fixtures"@
        || n == "ANY"@
        || n == "DELETE"@
        || n == "GET"@
        || n == "HEAD"@
        || n == "OPTIONS"@
        || n == "PATCH"@
        || n == "POST"@
        || n == "PUT"@
        || n == "context"@
        || n == "defroutes"@
        || n == "rfn"@
}

/// The heads cljfmt's default indents give `[:block 0]`.
pub open spec fn cljfmt_block_zero(n: Seq<char>) -> bool {
    n == "alt!"@
        || n == "alt!!"@
        || n == "comment"@
        || n == "cond"@
        || n == "delay"@
        || n == "do"@
        || n == "finally"@
        || n == "future"@
        || n == "go"@
        || n == "thread"@
        || n == "try"@
        || n == "with-out-str"@
}

/// The heads cljfmt's default indents give `[:block 2]`.
pub open spec fn cljfmt_block_two(n: Seq<char>) -> bool {
    n == "are"@
        || n == "as->"@
        || n == "catch"@
        || n == "condp"@
}

/// The heads `phel format` gives `[:inner 0]`.
pub open spec fn phel_format_inner_zero(n: Seq<char>) -> bool {
    n == "def"@
        || n == "def-"@
        || n == "defn"@
        || n == "defn-"@
        || n == "defmacro"@
        || n == "defmacro-"@
        || n == "deftest"@
        || n == "fn"@
        || n == "defstruct"@
        || n == "defrecord"@
        || n == "definterface"@
        || n == "defexception"@
        || n == "defenum"@
        || n == "defprotocol"@
        || n == "defmulti"@
        || n == "defmethod"@
        || n == "defonce"@
        || n == "reify"@
}

/// The heads `phel format` gives `[:block 0]`.
pub open spec fn phel_format_block_zero(n: Seq<char>) -> bool {
    n == "do"@
        || n == "cond"@
        || n == "try"@
        || n == "finally"@
        || n == "with-output-buffer"@
        || n == "delay"@
        || n == "lazy-seq"@
}

proof fn lemma_cljfmt_inner_zero(n: Seq<char>)
    requires
        cljfmt_inner_zero(n),
    ensures
        clj_rules(n) == seq![inner0()],
{
    if n == "def"@ {
        reveal_strlit("def");
        assert("def"@.len() == 3);
    } else if n == "defn"@ {
        reveal_strlit("defn");
        assert("defn"@.len() == 4);
    } else if n == "defn-"@ {
        reveal_strlit("defn-");
        assert("defn-"@.len() == 5);
    } else if n == "defmacro"@ {
        reveal_strlit("defmacro");
        assert("defmacro"@.len() == 8);
    } else if n == "defmethod"@ {
        reveal_strlit("defmethod");
        assert("defmethod"@.len() == 9);
    } else if n == "defmulti"@ {
        reveal_strlit("defmulti");
        assert("defmulti"@.len() == 8);
    } else if n == "defonce"@ {
        reveal_strlit("defonce");
        assert("defonce"@.len() == 7);
    } else if n == "deftest"@ {
        reveal_strlit("deftest");
        assert("deftest"@.len() == 7);
    } else if n == "fn"@ {
        reveal_strlit("fn");
        assert("fn"@.len() == 2);
    } else if n == "bound-fn"@ {
        reveal_strlit("bound-fn");
        assert("bound-fn"@.len() == 8);
    } else if n == "fdef"@ {
        reveal_strlit("fdef");
        assert("fdef"@.len() == 4);
    } else if n == "use-fixtures"@ {
        reveal_strlit("use-fixtures");
        assert("use-fixtures"@.len() == 12);
    } else if n == "ANY"@ {
        reveal_strlit("ANY");
        assert("ANY"@.len() == 3);
    } else if n == "DELETE"@ {
        reveal_strlit("DELETE");
        assert("DELETE"@.len() == 6);
    } else if n == "GET"@ {
        reveal_strlit("GET");
        assert("GET"@.len() == 3);
    } else if n == "HEAD"@ {
        reveal_strlit("HEAD");
        assert("HEAD"@.len() == 4);
    } else if n == "OPTIONS"@ {
        reveal_strlit("OPTIONS");
        assert("OPTIONS"@.len() == 7);
    } else if n == "PATCH"@ {
        reveal_strlit("PATCH");
        assert("PATCH"@.len() == 5);
    } else if n == "POST"@ {
        reveal_strlit("POST");
        assert("POST"@.len() == 4);
    } else if n == "PUT"@ {
        reveal_strlit("PUT");
        assert("PUT"@.len() == 3);
    } else if n == "context"@ {
        reveal_strlit("context");
        assert("context"@.len() == 7);
    } else if n == "defroutes"@ {
        reveal_strlit("defroutes");
        assert("defroutes"@.len() == 9);
    } else if n == "rfn"@ {
        reveal_strlit("rfn");
        assert("rfn"@.len() == 3);
    }
}

proof fn lemma_cljfmt_block_zero(n: Seq<char>)
    requires
        cljfmt_block_zero(n),
    ensures
        clj_rules(n) == seq![CljRule::Block(0)],
{
    reveal_strlit("def");
    assert("def"@.len() == 3);
    reveal_strlit("defn");
    assert("defn"@.len() == 4);
    reveal_strlit("defn-");
    assert("defn-"@.len() == 5);
    reveal_strlit("defmacro");
    assert("defmacro"@.len() == 8);
    reveal_strlit("defmethod");
    assert("defmethod"@.len() == 9);
    reveal_strlit("defmulti");
    assert("defmulti"@.len() == 8);
    reveal_strlit("defonce");
    assert("defonce"@.len() == 7);
    reveal_strlit("deftest");
    assert("deftest"@.len() == 7);
    reveal_strlit("fn");
    assert("fn"@.len() == 2);
    reveal_strlit("bound-fn");
    assert("bound-fn"@.len() == 8);
    reveal_strlit("fdef");
    assert("fdef"@.len() == 4);
    reveal_strlit("use-fixtures");
    assert("use-fixtures"@.len() == 12);
    reveal_strlit("ANY");
    assert("ANY"@.len() == 3);
    reveal_strlit("DELETE");
    assert("DELETE"@.len() == 6);
    reveal_strlit("GET");
    assert("GET"@.len() == 3);
    reveal_strlit("HEAD");
    assert("HEAD"@.len() == 4);
    reveal_strlit("OPTIONS");
    assert("OPTIONS"@.len() == 7);
    reveal_strlit("PATCH");
    assert("PATCH"@.len() == 5);
    reveal_strlit("POST");
    assert("POST"@.len() == 4);
    reveal_strlit("PUT");
    assert("PUT"@.len() == 3);
    reveal_strlit("context");
    assert("context"@.len() == 7);
    reveal_strlit("defroutes");
    assert("defroutes"@.len() == 9);
    reveal_strlit("rfn");
    assert("rfn"@.len() == 3);
    if n == "alt!"@ {
        reveal_strlit("alt!");
        assert("alt!"@.len() == 4);
        assert("alt!"@[0] == 'a');
        assert("defn"@[0] == 'd');
        assert("alt!"@[0] == 'a');
        assert("fdef"@[0] == 'f');
        assert("alt!"@[0] == 'a');
        assert("HEAD"@[0] == 'H');
        assert("alt!"@[0] == 'a');
        assert("POST"@[0] == 'P');
    } else if n == "alt!!"@ {
        reveal_strlit("alt!!");
        assert("alt!!"@.len() == 5);
        assert("alt!!"@[0] == 'a');
        assert("defn-"@[0] == 'd');
        assert("alt!!"@[0] == 'a');
        assert("PATCH"@[0] == 'P');
    } else if n == "comment"@ {
        reveal_strlit("comment");
        assert("comment"@.len() == 7);
        assert("comment"@[0] == 'c');
        assert("defonce"@[0] == 'd');
        assert("comment"@[0] == 'c');
        assert("deftest"@[0] == 'd');
        assert("comment"@[0] == 'c');
        assert("OPTIONS"@[0] == 'O');
        assert("comment"@[2] == 'm');
        assert("context"@[2] == 'n');
    } else if n == "cond"@ {
        reveal_strlit("cond");
        assert("cond"@.len() == 4);
        assert("cond"@[0] == 'c');
        assert("defn"@[0] == 'd');
        assert("cond"@[0] == 'c');
        assert("fdef"@[0] == 'f');
        assert("cond"@[0] == 'c');
        assert("HEAD"@[0] == 'H');
        assert("cond"@[0] == 'c');
        assert("POST"@[0] == 'P');
    } else if n == "delay"@ {
        reveal_strlit("delay");
        assert("delay"@.len() == 5);
        assert("delay"@[2] == 'l');
        assert("defn-"@[2] == 'f');
        assert("delay"@[0] == 'd');
        assert("PATCH"@[0] == 'P');
    } else if n == "do"@ {
        reveal_strlit("do");
        assert("do"@.len() == 2);
        assert("do"@[0] == 'd');
        assert("fn"@[0] == 'f');
    } else if n == "finally"@ {
        reveal_strlit("finally");
        assert("finally"@.len() == 7);
        assert("finally"@[0] == 'f');
        assert("defonce"@[0] == 'd');
        assert("finally"@[0] == 'f');
        assert("deftest"@[0] == 'd');
        assert("finally"@[0] == 'f');
        assert("OPTIONS"@[0] == 'O');
        assert("finally"@[0] == 'f');
        assert("context"@[0] == 'c');
    } else if n == "future"@ {
        reveal_strlit("future");
        assert("future"@.len() == 6);
        assert("future"@[0] == 'f');
        assert("DELETE"@[0] == 'D');
    } else if n == "go"@ {
        reveal_strlit("go");
        assert("go"@.len() == 2);
        assert("go"@[0] == 'g');
        assert("fn"@[0] == 'f');
    } else if n == "thread"@ {
        reveal_strlit("thread");
        assert("thread"@.len() == 6);
        assert("thread"@[0] == 't');
        assert("DELETE"@[0] == 'D');
    } else if n == "try"@ {
        reveal_strlit("try");
        assert("try"@.len() == 3);
        assert("try"@[0] == 't');
        assert("def"@[0] == 'd');
        assert("try"@[0] == 't');
        assert("ANY"@[0] == 'A');
        assert("try"@[0] == 't');
        assert("GET"@[0] == 'G');
        assert("try"@[0] == 't');
        assert("PUT"@[0] == 'P');
        assert("try"@[0] == 't');
        assert("rfn"@[0] == 'r');
    } else if n == "with-out-str"@ {
        reveal_strlit("with-out-str");
        assert("with-out-str"@.len() == 12);
        assert("with-out-str"@[0] == 'w');
        assert("use-fixtures"@[0] == 'u');
    }
}

proof fn lemma_cljfmt_block_two(n: Seq<char>)
    requires
        cljfmt_block_two(n),
    ensures
        clj_rules(n) == seq![CljRule::Block(2)],
{
    reveal_strlit("def");
    assert("def"@.len() == 3);
    reveal_strlit("defn");
    assert("defn"@.len() == 4);
    reveal_strlit("defn-");
    assert("defn-"@.len() == 5);
    reveal_strlit("defmacro");
    assert("defmacro"@.len() == 8);
    reveal_strlit("defmethod");
    assert("defmethod"@.len() == 9);
    reveal_strlit("defmulti");
    assert("defmulti"@.len() == 8);
    reveal_strlit("defonce");
    assert("defonce"@.len() == 7);
    reveal_strlit("deftest");
    assert("deftest"@.len() == 7);
    reveal_strlit("fn");
    assert("fn"@.len() == 2);
    reveal_strlit("bound-fn");
    assert("bound-fn"@.len() == 8);
    reveal_strlit("fdef");
    assert("fdef"@.len() == 4);
    reveal_strlit("use-fixtures");
    assert("use-fixtures"@.len() == 12);
    reveal_strlit("ANY");
    assert("ANY"@.len() == 3);
    reveal_strlit("DELETE");
    assert("DELETE"@.len() == 6);
    reveal_strlit("GET");
    assert("GET"@.len() == 3);
    reveal_strlit("HEAD");
    assert("HEAD"@.len() == 4);
    reveal_strlit("OPTIONS");
    assert("OPTIONS"@.len() == 7);
    reveal_strlit("PATCH");
    assert("PATCH"@.len() == 5);
    reveal_strlit("POST");
    assert("POST"@.len() == 4);
    reveal_strlit("PUT");
    assert("PUT"@.len() == 3);
    reveal_strlit("context");
    assert("context"@.len() == 7);
    reveal_strlit("defroutes");
    assert("defroutes"@.len() == 9);
    reveal_strlit("rfn");
    assert("rfn"@.len() == 3);
    reveal_strlit("alt!");
    assert("alt!"@.len() == 4);
    reveal_strlit("alt!!");
    assert("alt!!"@.len() == 5);
    reveal_strlit("comment");
    assert("comment"@.len() == 7);
    reveal_strlit("cond");
    assert("cond"@.len() == 4);
    reveal_strlit("delay");
    assert("delay"@.len() == 5);
    reveal_strlit("do");
    assert("do"@.len() == 2);
    reveal_strlit("finally");
    assert("finally"@.len() == 7);
    reveal_strlit("future");
    assert("future"@.len() == 6);
    reveal_strlit("go");
    assert("go"@.len() == 2);
    reveal_strlit("thread");
    assert("thread"@.len() == 6);
    reveal_strlit("try");
    assert("try"@.len() == 3);
    reveal_strlit("with-out-str");
    assert("with-out-str"@.len() == 12);
    reveal_strlit("binding");
    assert("binding"@.len() == 7);
    reveal_strlit("case");
    assert("case"@.len() == 4);
    reveal_strlit("cond->");
    assert("cond->"@.len() == 6);
    reveal_strlit("cond->>");
    assert("cond->>"@.len() == 7);
    reveal_strlit("defstruct");
    assert("defstruct"@.len() == 9);
    reveal_strlit("doseq");
    assert("doseq"@.len() == 5);
    reveal_strlit("dotimes");
    assert("dotimes"@.len() == 7);
    reveal_strlit("doto");
    assert("doto"@.len() == 4);
    reveal_strlit("extend");
    assert("extend"@.len() == 6);
    reveal_strlit("for");
    assert("for"@.len() == 3);
    reveal_strlit("go-loop");
    assert("go-loop"@.len() == 7);
    reveal_strlit("if");
    assert("if"@.len() == 2);
    reveal_strlit("if-let");
    assert("if-let"@.len() == 6);
    reveal_strlit("if-not");
    assert("if-not"@.len() == 6);
    reveal_strlit("if-some");
    assert("if-some"@.len() == 7);
    reveal_strlit("let");
    assert("let"@.len() == 3);
    reveal_strlit("let*");
    assert("let*"@.len() == 4);
    reveal_strlit("locking");
    assert("locking"@.len() == 7);
    reveal_strlit("loop");
    assert("loop"@.len() == 4);
    reveal_strlit("match");
    assert("match"@.len() == 5);
    reveal_strlit("ns");
    assert("ns"@.len() == 2);
    reveal_strlit("struct-map");
    assert("struct-map"@.len() == 10);
    reveal_strlit("testing");
    assert("testing"@.len() == 7);
    reveal_strlit("when");
    assert("when"@.len() == 4);
    reveal_strlit("when-first");
    assert("when-first"@.len() == 10);
    reveal_strlit("when-let");
    assert("when-let"@.len() == 8);
    reveal_strlit("when-not");
    assert("when-not"@.len() == 8);
    reveal_strlit("when-some");
    assert("when-some"@.len() == 9);
    reveal_strlit("while");
    assert("while"@.len() == 5);
    reveal_strlit("with-local-vars");
    assert("with-local-vars"@.len() == 15);
    reveal_strlit("with-open");
    assert("with-open"@.len() == 9);
    reveal_strlit("with-precision");
    assert("with-precision"@.len() == 14);
    reveal_strlit("with-redefs");
    assert("with-redefs"@.len() == 11);
    reveal_strlit("let-routes");
    assert("let-routes"@.len() == 10);
    if n == "are"@ {
        reveal_strlit("are");
        assert("are"@.len() == 3);
        assert("are"@[0] == 'a');
        assert("def"@[0] == 'd');
        assert("are"@[0] == 'a');
        assert("ANY"@[0] == 'A');
        assert("are"@[0] == 'a');
        assert("GET"@[0] == 'G');
        assert("are"@[0] == 'a');
        assert("PUT"@[0] == 'P');
        assert("are"@[0] == 'a');
        assert("rfn"@[0] == 'r');
        assert("are"@[0] == 'a');
        assert("try"@[0] == 't');
        assert("are"@[0] == 'a');
        assert("for"@[0] == 'f');
        assert("are"@[0] == 'a');
        assert("let"@[0] == 'l');
    } else if n == "as->"@ {
        reveal_strlit("as->");
        assert("as->"@.len() == 4);
        assert("as->"@[0] == 'a');
        assert("defn"@[0] == 'd');
        assert("as->"@[0] == 'a');
        assert("fdef"@[0] == 'f');
        assert("as->"@[0] == 'a');
        assert("HEAD"@[0] == 'H');
        assert("as->"@[0] == 'a');
        assert("POST"@[0] == 'P');
        assert("as->"@[1] == 's');
        assert("alt!"@[1] == 'l');
        assert("as->"@[0] == 'a');
        assert("cond"@[0] == 'c');
        assert("as->"@[0] == 'a');
        assert("case"@[0] == 'c');
        assert("as->"@[0] == 'a');
        assert("doto"@[0] == 'd');
        assert("as->"@[0] == 'a');
        assert("let*"@[0] == 'l');
        assert("as->"@[0] == 'a');
        assert("loop"@[0] == 'l');
        assert("as->"@[0] == 'a');
        assert("when"@[0] == 'w');
    } else if n == "catch"@ {
        reveal_strlit("catch");
        assert("catch"@.len() == 5);
        assert("catch"@[0] == 'c');
        assert("defn-"@[0] == 'd');
        assert("catch"@[0] == 'c');
        assert("PATCH"@[0] == 'P');
        assert("catch"@[0] == 'c');
        assert("alt!!"@[0] == 'a');
        assert("catch"@[0] == 'c');
        assert("delay"@[0] == 'd');
        assert("catch"@[0] == 'c');
        assert("doseq"@[0] == 'd');
        assert("catch"@[0] == 'c');
        assert("match"@[0] == 'm');
        assert("catch"@[0] == 'c');
        assert("while"@[0] == 'w');
    } else if n == "condp"@ {
        reveal_strlit("condp");
        assert("condp"@.len() == 5);
        assert("condp"@[0] == 'c');
        assert("defn-"@[0] == 'd');
        assert("condp"@[0] == 'c');
        assert("PATCH"@[0] == 'P');
        assert("condp"@[0] == 'c');
        assert("alt!!"@[0] == 'a');
        assert("condp"@[0] == 'c');
        assert("delay"@[0] == 'd');
        assert("condp"@[0] == 'c');
        assert("doseq"@[0] == 'd');
        assert("condp"@[0] == 'c');
        assert("match"@[0] == 'm');
        assert("condp"@[0] == 'c');
        assert("while"@[0] == 'w');
    }
}

proof fn lemma_phel_inner_zero(n: Seq<char>)
    requires
        phel_format_inner_zero(n),
    ensures
        phel_rules(n) == seq![inner0()],
{
    if n == "def"@ {
        reveal_strlit("def");
        assert("def"@.len() == 3);
    } else if n == "def-"@ {
        reveal_strlit("def-");
        assert("def-"@.len() == 4);
    } else if n == "defn"@ {
        reveal_strlit("defn");
        assert("defn"@.len() == 4);
    } else if n == "defn-"@ {
        reveal_strlit("defn-");
        assert("defn-"@.len() == 5);
    } else if n == "defmacro"@ {
        reveal_strlit("defmacro");
        assert("defmacro"@.len() == 8);
    } else if n == "defmacro-"@ {
        reveal_strlit("defmacro-");
        assert("defmacro-"@.len() == 9);
    } else if n == "deftest"@ {
        reveal_strlit("deftest");
        assert("deftest"@.len() == 7);
    } else if n == "fn"@ {
        reveal_strlit("fn");
        assert("fn"@.len() == 2);
    } else if n == "defstruct"@ {
        reveal_strlit("defstruct");
        assert("defstruct"@.len() == 9);
    } else if n == "defrecord"@ {
        reveal_strlit("defrecord");
        assert("defrecord"@.len() == 9);
    } else if n == "definterface"@ {
        reveal_strlit("definterface");
        assert("definterface"@.len() == 12);
    } else if n == "defexception"@ {
        reveal_strlit("defexception");
        assert("defexception"@.len() == 12);
    } else if n == "defenum"@ {
        reveal_strlit("defenum");
        assert("defenum"@.len() == 7);
    } else if n == "defprotocol"@ {
        reveal_strlit("defprotocol");
        assert("defprotocol"@.len() == 11);
    } else if n == "defmulti"@ {
        reveal_strlit("defmulti");
        assert("defmulti"@.len() == 8);
    } else if n == "defmethod"@ {
        reveal_strlit("defmethod");
        assert("defmethod"@.len() == 9);
    } else if n == "defonce"@ {
        reveal_strlit("defonce");
        assert("defonce"@.len() == 7);
    } else if n == "reify"@ {
        reveal_strlit("reify");
        assert("reify"@.len() == 5);
    }
}

proof fn lemma_phel_block_zero(n: Seq<char>)
    requires
        phel_format_block_zero(n),
    ensures
        phel_rules(n) == seq![CljRule::Block(0)],
{
    reveal_strlit("def");
    assert("def"@.len() == 3);
    reveal_strlit("def-");
    assert("def-"@.len() == 4);
    reveal_strlit("defn");
    assert("defn"@.len() == 4);
    reveal_strlit("defn-");
    assert("defn-"@.len() == 5);
    reveal_strlit("defmacro");
    assert("defmacro"@.len() == 8);
    reveal_strlit("defmacro-");
    assert("defmacro-"@.len() == 9);
    reveal_strlit("deftest");
    assert("deftest"@.len() == 7);
    reveal_strlit("fn");
    assert("fn"@.len() == 2);
    reveal_strlit("defstruct");
    assert("defstruct"@.len() == 9);
    reveal_strlit("defrecord");
    assert("defrecord"@.len() == 9);
    reveal_strlit("definterface");
    assert("definterface"@.len() == 12);
    reveal_strlit("defexception");
    assert("defexception"@.len() == 12);
    reveal_strlit("defenum");
    assert("defenum"@.len() == 7);
    reveal_strlit("defprotocol");
    assert("defprotocol"@.len() == 11);
    reveal_strlit("defmulti");
    assert("defmulti"@.len() == 8);
    reveal_strlit("defmethod");
    assert("defmethod"@.len() == 9);
    reveal_strlit("defonce");
    assert("defonce"@.len() == 7);
    reveal_strlit("reify");
    assert("reify"@.len() == 5);
    if n == "do"@ {
        reveal_strlit("do");
        assert("do"@.len() == 2);
        assert("do"@[0] == 'd');
        assert("fn"@[0] == 'f');
    } else if n == "cond"@ {
        reveal_strlit("cond");
        assert("cond"@.len() == 4);
        assert("cond"@[0] == 'c');
        assert("def-"@[0] == 'd');
        assert("cond"@[0] == 'c');
        assert("defn"@[0] == 'd');
    } else if n == "try"@ {
        reveal_strlit("try");
        assert("try"@.len() == 3);
        assert("try"@[0] == 't');
        assert("def"@[0] == 'd');
    } else if n == "finally"@ {
        reveal_strlit("finally");
        assert("finally"@.len() == 7);
        assert("finally"@[0] == 'f');
        assert("deftest"@[0] == 'd');
        assert("finally"@[0] == 'f');
        assert("defenum"@[0] == 'd');
        assert("finally"@[0] == 'f');
        assert("defonce"@[0] == 'd');
    } else if n == "with-output-buffer"@ {
        reveal_strlit("with-output-buffer");
        assert("with-output-buffer"@.len() == 18);
    } else if n == "delay"@ {
        reveal_strlit("delay");
        assert("delay"@.len() == 5);
        assert("delay"@[2] == 'l');
        assert("defn-"@[2] == 'f');
        assert("delay"@[0] == 'd');
        assert("reify"@[0] == 'r');
    } else if n == "lazy-seq"@ {
        reveal_strlit("lazy-seq");
        assert("lazy-seq"@.len() == 8);
        assert("lazy-seq"@[0] == 'l');
        assert("defmacro"@[0] == 'd');
        assert("lazy-seq"@[0] == 'l');
        assert("defmulti"@[0] == 'd');
    }
}

/// The Clojure rule table agrees with cljfmt's default indents, and
/// Phel's with `phel format`'s: each head they give `[:inner 0]`,
/// `[:block 0]` or `[:block 2]` takes exactly that rule.
pub proof fn law_cljfmt_rule_table(n: Seq<char>)
    ensures
        cljfmt_inner_zero(n) ==> rules_for(n, Dialect::Clojure) == seq![inner0()],
        cljfmt_block_zero(n) ==> rules_for(n, Dialect::Clojure) == seq![CljRule::Block(0)],
        cljfmt_block_two(n) ==> rules_for(n, Dialect::Clojure) == seq![CljRule::Block(2)],
        phel_format_inner_zero(n) ==> rules_for(n, Dialect::Phel) == seq![inner0()],
        phel_format_block_zero(n) ==> rules_for(n, Dialect::Phel) == seq![CljRule::Block(0)],
{
    if cljfmt_inner_zero(n) {
        lemma_cljfmt_inner_zero(n);
    }
    if cljfmt_block_zero(n) {
        lemma_cljfmt_block_zero(n);
    }
    if cljfmt_block_two(n) {
        lemma_cljfmt_block_two(n);
    }
    if phel_format_inner_zero(n) {
        lemma_phel_inner_zero(n);
    }
    if phel_format_block_zero(n) {
        lemma_phel_block_zero(n);
    }
}

} // verus!
