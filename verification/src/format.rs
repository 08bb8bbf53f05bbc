//! Lisp indentation the way Emacs does it: `calculate-lisp-indent`
//! with `lisp-indent-function` (Emacs Lisp, and the generic style for
//! dialects without one of their own), with `scheme-indent-function` (the
//! Scheme family) and with `common-lisp-indent-function` (Common Lisp).
//!
//! Each line's indentation is derived from the innermost list containing the
//! line's start and the indent spec of that list's head symbol. Only leading
//! whitespace is ever rewritten — tokens and line order are untouched — so a
//! reindent never changes what the file reads as.
//!
//! The model is stated over a source, the datum tree read from it, the
//! indent-spec table, the config and (optionally) Nameless: [`formatted`] is
//! the text [`format_forms`] produces.

use vstd::prelude::*;

mod commonlisp;
mod clojure;

use crate::config::FormatConfig;
use crate::indent_table::{elisp_table, indent_specs, lookup, IndentRule};
use crate::nameless::{saving_spec, Nameless};
use crate::reader::{lx_lex, read, Dialect, LexKind, Node, Shape};
use crate::text::all_ws;
use crate::text::{
    chars_of, display_width, has_prefix_at, indent_len, indent_len_of, line_numbers, line_of,
    line_spans, line_table, nl_count, push_char, push_range, starts_with_at, str_width, eq_lit,
    string_of_range, trim_indent, seq_eq,
};

verus! {

// --- Spec model ---------------------------------------------------------------

/// The indentation style a dialect is reindented in.
#[derive(Debug, Clone, Copy, PartialEq, Eq, Structural)]
pub enum Engine {
    /// Emacs's `lisp-indent-function`: Emacs Lisp, and the generic style for
    /// dialects without one of their own.
    Elisp,
    /// Emacs's `scheme-indent-function`: the Scheme family.
    Scheme,
    /// Emacs's `common-lisp-indent-function`: Common Lisp.
    CommonLisp,
    /// cljfmt's `:inner`/`:block` model: Clojure, and Phel with its own rule
    /// table.
    Clojure(Dialect),
    /// ISLisp: the generic style, or, under the opt-in EISL style, the
    /// cljfmt model with edlis's fixed body indent of 4.
    Islisp,
}

/// The engine that indents under `cfg`: ISLisp resolves to the EISL style
/// when the config opts in, else to the generic one.
pub open spec fn resolved_engine(eng: Engine, cfg: FormatConfig) -> Engine {
    if eng == Engine::Islisp {
        if cfg.islisp_eisl {
            Engine::Clojure(Dialect::Islisp)
        } else {
            Engine::Elisp
        }
    } else {
        eng
    }
}

fn resolve_engine(eng: Engine, cfg: &FormatConfig) -> (r: Engine)
    ensures
        r == resolved_engine(eng, *cfg),
{
    match eng {
        Engine::Islisp => if cfg.islisp_eisl {
            Engine::Clojure(Dialect::Islisp)
        } else {
            Engine::Elisp
        },
        _ => eng,
    }
}

/// The engine `d` is reindented with.
pub open spec fn engine_of(d: Dialect) -> Engine {
    match d {
        Dialect::Scheme | Dialect::Guile | Dialect::Racket | Dialect::Gauche | Dialect::Mosh | Dialect::Gambit
        | Dialect::SchemeSuperset => Engine::Scheme,
        Dialect::CommonLisp => Engine::CommonLisp,
        Dialect::Clojure => Engine::Clojure(Dialect::Clojure),
        Dialect::Phel => Engine::Clojure(Dialect::Phel),
        Dialect::Islisp => Engine::Islisp,
        _ => Engine::Elisp,
    }
}

/// The engine `d` is reindented with.
pub fn engine_for(d: Dialect) -> (r: Engine)
    ensures
        r == engine_of(d),
{
    match d {
        Dialect::Scheme | Dialect::Guile | Dialect::Racket | Dialect::Gauche | Dialect::Mosh | Dialect::Gambit
        | Dialect::SchemeSuperset => Engine::Scheme,
        Dialect::CommonLisp => Engine::CommonLisp,
        Dialect::Clojure => Engine::Clojure(Dialect::Clojure),
        Dialect::Phel => Engine::Clojure(Dialect::Phel),
        Dialect::Islisp => Engine::Islisp,
        _ => Engine::Elisp,
    }
}

/// Everything the line indenter consults, derived from the source.
pub struct Env {
    pub eng: Engine,
    pub src: Seq<char>,
    /// The content span of each line.
    pub spans: Seq<(int, int)>,
    /// The original indent (leading non-page-break whitespace) of each line.
    pub old: Seq<int>,
    /// `(offset, columns saved)` of each Nameless-composed symbol, in tree
    /// order.
    pub saves: Seq<(int, int)>,
    pub table: Map<Seq<char>, IndentRule>,
    pub cfg: FormatConfig,
    pub forms: Seq<Node>,
}

pub open spec fn sat(x: int) -> int {
    if x > usize::MAX {
        usize::MAX as int
    } else {
        x
    }
}

pub open spec fn min(a: int, b: int) -> int {
    if a <= b {
        a
    } else {
        b
    }
}

/// Whether `offset` lies strictly inside `n`'s span.
pub open spec fn contains(n: Node, off: int) -> bool {
    n.start < off && off < n.end
}

/// The index of the first datum of `data[k..]` whose span holds `off`.
pub open spec fn first_containing(data: Seq<Node>, off: int, k: int) -> Option<int>
    decreases data.len() - k,
{
    if k < 0 || k >= data.len() {
        None
    } else if contains(data[k], off) {
        Some(k)
    } else {
        first_containing(data, off, k + 1)
    }
}

pub proof fn lemma_first_containing(data: Seq<Node>, off: int, k: int)
    ensures
        match first_containing(data, off, k) {
            Some(j) => k <= j < data.len() && 0 <= j && contains(data[j], off),
            None => true,
        },
    decreases data.len() - k,
{
    if 0 <= k < data.len() && !contains(data[k], off) {
        lemma_first_containing(data, off, k + 1);
    }
}

/// The deepest enclosing list of `off` among `data` (the first datum holding
/// `off` decides).
pub open spec fn container_at(data: Seq<Node>, off: int) -> Option<Node>
    decreases data, 0nat,
{
    match first_containing(data, off, 0) {
        Some(k) => {
            proof {
                lemma_first_containing(data, off, 0);
            }
            container_in(data[k], off)
        },
        None => None,
    }
}

/// `container_at` of the single datum `n`.
pub open spec fn container_one(n: Node, off: int) -> Option<Node>
    decreases n, 1nat,
{
    if contains(n, off) {
        container_in(n, off)
    } else {
        None
    }
}

/// The deepest enclosing list of `off` inside `n`, which holds `off`.
pub open spec fn container_in(n: Node, off: int) -> Option<Node>
    decreases n, 0nat,
{
    match n.shape {
        Shape::List => match container_at(n.items@, off) {
            Some(x) => Some(x),
            None => match n.tail {
                Some(t) => if contains(*t, off) {
                    match container_in(*t, off) {
                        Some(x) => Some(x),
                        None => Some(n),
                    }
                } else {
                    Some(n)
                },
                None => Some(n),
            },
        },
        Shape::Prefixed => match n.arg {
            Some(a) => if contains(*a, off) {
                container_in(*a, off)
            } else {
                match n.inner {
                    Some(i) => container_one(*i, off),
                    None => None,
                }
            },
            None => match n.inner {
                Some(i) => container_one(*i, off),
                None => None,
            },
        },
        Shape::HashLiteral => match n.inner {
            Some(i) => match container_one(*i, off) {
                Some(x) => Some(x),
                None => if contains(*i, off) {
                    Some(*i)
                } else {
                    None
                },
            },
            None => None,
        },
        _ => None,
    }
}

/// Whether `off` lies strictly inside a string literal among `data`.
pub open spec fn in_string_at(data: Seq<Node>, off: int) -> bool
    decreases data, 0nat,
{
    match first_containing(data, off, 0) {
        Some(k) => {
            proof {
                lemma_first_containing(data, off, 0);
            }
            in_string_in(data[k], off)
        },
        None => false,
    }
}

pub open spec fn in_string_one(n: Node, off: int) -> bool
    decreases n, 1nat,
{
    contains(n, off) && in_string_in(n, off)
}

pub open spec fn in_string_in(n: Node, off: int) -> bool
    decreases n, 0nat,
{
    match n.shape {
        Shape::Str => true,
        Shape::List => in_string_at(n.items@, off) || (match n.tail {
            Some(t) => in_string_one(*t, off),
            None => false,
        }),
        Shape::Prefixed => (match n.inner {
            Some(i) => in_string_one(*i, off),
            None => false,
        }) || (match n.arg {
            Some(a) => in_string_one(*a, off),
            None => false,
        }),
        Shape::HashLiteral => match n.inner {
            Some(i) => in_string_one(*i, off),
            None => false,
        },
        _ => false,
    }
}

/// The enclosing lists of `off`, outermost first.
pub open spec fn path_at(data: Seq<Node>, off: int) -> Seq<Node>
    decreases data, 0nat,
{
    match first_containing(data, off, 0) {
        Some(k) => {
            proof {
                lemma_first_containing(data, off, 0);
            }
            path_in(data[k], off)
        },
        None => Seq::empty(),
    }
}

pub open spec fn path_one(n: Node, off: int) -> Seq<Node>
    decreases n, 1nat,
{
    if contains(n, off) {
        path_in(n, off)
    } else {
        Seq::empty()
    }
}

pub open spec fn path_in(n: Node, off: int) -> Seq<Node>
    decreases n, 0nat,
{
    match n.shape {
        Shape::List => seq![n] + path_at(n.items@, off) + (match n.tail {
            Some(t) => path_one(*t, off),
            None => Seq::empty(),
        }),
        Shape::Prefixed => (match n.arg {
            Some(a) => path_one(*a, off),
            None => Seq::empty(),
        }) + (match n.inner {
            Some(i) => path_one(*i, off),
            None => Seq::empty(),
        }),
        Shape::HashLiteral => match n.inner {
            Some(i) => path_one(*i, off),
            None => Seq::empty(),
        },
        _ => Seq::empty(),
    }
}

/// The source text of `n` (empty for a span outside the source).
pub open spec fn node_text(src: Seq<char>, n: Node) -> Seq<char> {
    if n.start <= n.end <= src.len() {
        src.subrange(n.start as int, n.end as int)
    } else {
        Seq::empty()
    }
}

/// `(offset, saving)` of every Nameless-composed symbol among `data[..k]`,
/// in tree order (list items, then a dotted tail, and through reader macros).
pub open spec fn saves_range(
    src: Seq<char>,
    nl: Seq<(Seq<char>, nat)>,
    data: Seq<Node>,
    k: int,
) -> Seq<(int, int)>
    decreases data, k,
{
    if k <= 0 || k > data.len() {
        Seq::empty()
    } else {
        saves_range(src, nl, data, k - 1) + saves_in(src, nl, data[k - 1])
    }
}

pub open spec fn saves_in(src: Seq<char>, nl: Seq<(Seq<char>, nat)>, n: Node) -> Seq<(int, int)>
    decreases n, 0int,
{
    match n.shape {
        Shape::Symbol => {
            let s = saving_spec(nl, node_text(src, n));
            if s > 0 {
                seq![(n.start as int, s as int)]
            } else {
                Seq::empty()
            }
        },
        Shape::List => saves_range(src, nl, n.items@, n.items@.len() as int) + (match n.tail {
            Some(t) => saves_in(src, nl, *t),
            None => Seq::empty(),
        }),
        Shape::Prefixed => match n.inner {
            Some(i) => saves_in(src, nl, *i),
            None => Seq::empty(),
        },
        _ => Seq::empty(),
    }
}

/// The indenter's view of `src` read as `forms`.
pub open spec fn env_of(
    eng: Engine,
    src: Seq<char>,
    forms: Seq<Node>,
    table: Map<Seq<char>, IndentRule>,
    cfg: FormatConfig,
    nl: Option<Seq<(Seq<char>, nat)>>,
) -> Env {
    let spans = line_spans(src);
    Env {
        eng: resolved_engine(eng, cfg),
        src,
        spans,
        old: Seq::new(
            spans.len(),
            |i: int| indent_len(src.subrange(spans[i].0, spans[i].1)) as int,
        ),
        saves: match nl {
            Some(p) => saves_range(src, p, forms, forms.len() as int),
            None => Seq::empty(),
        },
        table,
        cfg,
        forms,
    }
}

pub open spec fn line_at(e: Env, off: int) -> int {
    line_of(e.src, off) as int
}

pub open spec fn span_at(e: Env, l: int) -> (int, int) {
    if 0 <= l < e.spans.len() {
        e.spans[l]
    } else {
        (0, 0)
    }
}

pub open spec fn old_at(e: Env, l: int) -> int {
    if 0 <= l < e.old.len() {
        e.old[l]
    } else {
        0
    }
}

pub open spec fn ni_at(ni: Seq<usize>, l: int) -> int {
    if 0 <= l < ni.len() {
        ni[l] as int
    } else {
        0
    }
}

/// The saturating sum of the savings among `saves[..k]` on line `l` that
/// start before `off`.
pub open spec fn saved_before(e: Env, k: int, l: int, off: int) -> int
    decreases k,
{
    if k <= 0 || k > e.saves.len() {
        0
    } else {
        let p = saved_before(e, k - 1, l, off);
        let (o, s) = e.saves[k - 1];
        if line_at(e, o) == l && o < off {
            sat(p + s)
        } else {
            p
        }
    }
}

/// The output column of `off`, in displayed columns: its line's new indent
/// plus the display width of the line's content up to `off`, less what
/// Nameless composition saves before it.
pub open spec fn col(e: Env, ni: Seq<usize>, off: int) -> int {
    let o = min(off, e.src.len() as int);
    let l = line_at(e, o);
    let a = min(span_at(e, l).0 + old_at(e, l), o);
    let raw = sat(ni_at(ni, l) + display_width(e.src.subrange(a, o)));
    let sv = saved_before(e, e.saves.len() as int, l, off);
    if raw >= sv {
        raw - sv
    } else {
        0
    }
}

/// The head symbol's text of list `c`, if its first element is a symbol.
pub open spec fn head_text(e: Env, c: Node) -> Option<Seq<char>> {
    if c.items@.len() > 0 && c.items@[0].shape == Shape::Symbol {
        Some(node_text(e.src, c.items@[0]))
    } else {
        None
    }
}

/// Whether a list's head reads as a symbol for indentation: symbols,
/// keywords, numbers, booleans and `?x` characters do; a reader macro defers
/// to what it wraps.
pub open spec fn head_is_symbol_like(src: Seq<char>, n: Node) -> bool
    decreases n,
{
    match n.shape {
        Shape::Symbol | Shape::Keyword | Shape::Number | Shape::Bool => true,
        Shape::Char => node_text(src, n).len() > 0 && node_text(src, n)[0] == '?',
        Shape::Prefixed => match n.inner {
            Some(i) => head_is_symbol_like(src, *i),
            None => false,
        },
        _ => false,
    }
}

/// Function-call alignment (`calculate-lisp-indent`'s normal indent).
pub open spec fn normal_indent(e: Env, ni: Seq<usize>, c: Node, open_col: int, off: int) -> int {
    let items = c.items@;
    if items.len() == 0 {
        sat(open_col + 1)
    } else {
        let first = items[0];
        if line_at(e, first.start as int) >= line_at(e, off) {
            sat(open_col + 1)
        } else {
            let ws = first.start > c.start + 1 && line_at(e, first.start as int) == line_at(
                e,
                c.start as int,
            );
            if !head_is_symbol_like(e.src, first) || ws {
                col(e, ni, first.start as int)
            } else if items.len() > 1 {
                if line_at(e, c.start as int) == line_at(e, items[1].start as int) {
                    col(e, ni, items[1].start as int)
                } else {
                    col(e, ni, first.start as int)
                }
            } else {
                match c.dot {
                    Some(d) => if line_at(e, d as int) == line_at(e, c.start as int) {
                        col(e, ni, d as int)
                    } else {
                        col(e, ni, first.start as int)
                    },
                    None => col(e, ni, first.start as int),
                }
            }
        }
    }
}

/// The number of arguments among `items[1..k]` that end at or before `off`.
pub open spec fn count_done(items: Seq<Node>, off: int, k: int) -> int
    decreases k,
{
    if k <= 1 || k > items.len() {
        0
    } else {
        count_done(items, off, k - 1) + (if items[k - 1].end <= off {
            1int
        } else {
            0int
        })
    }
}

/// `lisp-indent-specform` for an integer spec `n`.
pub open spec fn specform(
    e: Env,
    ni: Seq<usize>,
    items: Seq<Node>,
    off: int,
    open_col: int,
    n: int,
    normal: int,
    body: int,
) -> int {
    let k = count_done(items, off, items.len() as int);
    if k < n {
        if k <= 1 {
            sat(open_col + sat(2 * body))
        } else {
            normal
        }
    } else {
        let open_line = line_at(e, items[0].start as int);
        if n + 1 < items.len() && line_at(e, items[n + 1].start as int) < line_at(e, off) {
            if line_at(e, items[n + 1].start as int) > open_line {
                col(e, ni, items[n + 1].start as int)
            } else {
                normal
            }
        } else {
            sat(open_col + body)
        }
    }
}

/// The indent of a line starting at `off` inside list `c`.
pub open spec fn indent_for(e: Env, ni: Seq<usize>, c: Node, off: int, body: int) -> int {
    if c.shape != Shape::List {
        0
    } else {
        let open_col = col(e, ni, c.start as int);
        let normal = normal_indent(e, ni, c, open_col, off);
        match head_text(e, c) {
            Some(h) => if e.table.dom().contains(h) {
                match e.table[h] {
                    IndentRule::Number(n) => specform(
                        e,
                        ni,
                        c.items@,
                        off,
                        open_col,
                        n as int,
                        normal,
                        body,
                    ),
                    IndentRule::Defun => sat(open_col + body),
                    IndentRule::Other => normal,
                }
            } else {
                normal
            },
            None => normal,
        }
    }
}

pub open spec fn is_flet_head(h: Seq<char>) -> bool {
    h == "cl-flet"@ || h == "cl-flet*"@ || h == "cl-labels"@ || h == "cl-macrolet"@
}

/// A `cl-flet` / `cl-flet*` / `cl-labels` / `cl-macrolet` binding indents as
/// a local defun: a continuation line past its name sits one body step past
/// the binding's open paren.
pub open spec fn flet_indent(e: Env, ni: Seq<usize>, path: Seq<Node>, off: int, body: int) -> Option<
    int,
> {
    let n = path.len();
    if n < 3 {
        None
    } else {
        let form = path[n - 3];
        let bl = path[n - 2];
        let b = path[n - 1];
        if form.shape != Shape::List {
            None
        } else if !(head_text(e, form) is Some && is_flet_head(head_text(e, form)->0)) {
            None
        } else if !(form.items@.len() > 1 && form.items@[1].start == bl.start) {
            None
        } else if b.shape != Shape::List || b.items@.len() == 0 {
            None
        } else if b.items@[0].shape != Shape::Symbol {
            None
        } else if off <= b.items@[0].end {
            None
        } else {
            Some(sat(col(e, ni, b.start as int) + body))
        }
    }
}

/// The engine's indent for a code line starting at `off`.
pub open spec fn code_indent(e: Env, ni: Seq<usize>, off: int) -> int {
    let body = e.cfg.body_indent as int;
    match container_at(e.forms, off) {
        Some(c) => match e.eng {
            Engine::Scheme => scheme_indent(e, ni, c, off, body),
            Engine::CommonLisp => commonlisp::clamp_col(commonlisp::cl_indent(e, ni, c, off)),
            Engine::Clojure(d) => clojure::clj_indent(e, ni, c, off, e.cfg.clojure_fixed_indent, d),
            Engine::Elisp | Engine::Islisp => match flet_indent(e, ni, path_at(e.forms, off), off, body) {
                Some(v) => v,
                None => indent_for(e, ni, c, off, body),
            },
        },
        None => 0,
    }
}

/// Under the Clojure engine for dialect `d`, whether line `i` of `e` begins
/// with a line comment: a line-comment lexeme starts on it with only
/// whitespace before it.
pub open spec fn comment_line(e: Env, d: Dialect, i: int) -> bool {
    let toks = crate::parinfer::toks_of(e.src, d);
    exists|k: int|
        0 <= k < toks.len() && (#[trigger] toks[k]).kind == LexKind::LineComment && line_at(e, toks[k].start as int)
            == i && span_at(e, i).0 <= toks[k].start && all_ws(e.src.subrange(span_at(e, i).0, toks[k].start as int))
}

/// Whether line `i` is a comment-only line the engine leaves as written:
/// cljfmt and `phel format` never reindent one.
pub open spec fn comment_only(e: Env, i: int) -> bool {
    match e.eng {
        Engine::Clojure(d) => comment_line(e, d, i),
        _ => false,
    }
}

/// How the driver treats one line.
pub enum LineKind {
    /// Left byte-identical: outside the touched region, inside a string, a
    /// comment-only line under the Clojure engine, or a `;;;` comment.
    Keep,
    /// A whitespace-only line: emptied.
    Blank,
    /// A lone-`;` comment: sent to `comment-column`.
    Comment,
    /// Code (or a `;;` comment): indented by the engine.
    Code,
}

pub open spec fn line_text(e: Env, i: int) -> Seq<char> {
    e.src.subrange(span_at(e, i).0, span_at(e, i).1)
}

pub open spec fn line_kind(e: Env, mask: Option<Seq<bool>>, i: int) -> LineKind {
    let t = trim_indent(line_text(e, i));
    if mask is Some && !(0 <= i < mask->0.len() && mask->0[i]) {
        LineKind::Keep
    } else if in_string_at(e.forms, span_at(e, i).0) {
        LineKind::Keep
    } else if t.len() == 0 {
        LineKind::Blank
    } else if comment_only(e, i) {
        LineKind::Keep
    } else if has_prefix_at(t, 0, ";;;"@) {
        LineKind::Keep
    } else if has_prefix_at(t, 0, ";"@) && !has_prefix_at(t, 0, ";;"@) {
        LineKind::Comment
    } else {
        LineKind::Code
    }
}

/// The new indent of line `i`, given the new indents `ni` of earlier lines.
pub open spec fn new_indent(e: Env, mask: Option<Seq<bool>>, ni: Seq<usize>, i: int) -> int {
    match line_kind(e, mask, i) {
        LineKind::Keep => old_at(e, i),
        LineKind::Blank => 0,
        LineKind::Comment => e.cfg.comment_column as int,
        LineKind::Code => code_indent(e, ni, span_at(e, i).0),
    }
}

/// The new indents after processing lines `0..k` (later lines still 0).
pub open spec fn indents(e: Env, mask: Option<Seq<bool>>, k: int) -> Seq<usize>
    decreases k,
{
    if k <= 0 {
        Seq::new(e.spans.len(), |i: int| 0usize)
    } else {
        let p = indents(e, mask, k - 1);
        p.update(k - 1, new_indent(e, mask, p, k - 1) as usize)
    }
}

/// `n` copies of `c`.
pub open spec fn repeat(c: char, n: nat) -> Seq<char> {
    Seq::new(n, |i: int| c)
}

/// An indent of `col` columns: spaces, or tabs then spaces under
/// `indent-tabs-mode`.
pub open spec fn render(cfg: FormatConfig, col: nat) -> Seq<char> {
    if cfg.indent_tabs && cfg.tab_width > 0 {
        repeat('\t', col / (cfg.tab_width as nat)) + repeat(' ', col % (cfg.tab_width as nat))
    } else {
        repeat(' ', col)
    }
}

/// The output text of line `i`.
pub open spec fn out_line(e: Env, mask: Option<Seq<bool>>, i: int) -> Seq<char> {
    let ni = indents(e, mask, i);
    match line_kind(e, mask, i) {
        LineKind::Keep => line_text(e, i),
        LineKind::Blank => Seq::empty(),
        _ => render(e.cfg, new_indent(e, mask, ni, i) as nat) + trim_indent(line_text(e, i)),
    }
}

pub open spec fn out_lines(e: Env, mask: Option<Seq<bool>>) -> Seq<Seq<char>> {
    Seq::new(e.spans.len(), |i: int| out_line(e, mask, i))
}

/// Lines joined with `\n`.
pub open spec fn join_lines(ls: Seq<Seq<char>>) -> Seq<char>
    decreases ls.len(),
{
    if ls.len() == 0 {
        Seq::empty()
    } else if ls.len() == 1 {
        ls[0]
    } else {
        join_lines(ls.drop_last()) + seq!['\n'] + ls.last()
    }
}

/// The reindented text of `src`, read as `forms`.
pub open spec fn formatted(
    eng: Engine,
    src: Seq<char>,
    forms: Seq<Node>,
    table: Map<Seq<char>, IndentRule>,
    cfg: FormatConfig,
    nl: Option<Seq<(Seq<char>, nat)>>,
    mask: Option<Seq<bool>>,
) -> Seq<char> {
    join_lines(out_lines(env_of(eng, src, forms, table, cfg, nl), mask))
}


// --- Executable engine ----------------------------------------------------------

/// What the line indenter reads, precomputed once per run.
pub struct Frame<'a> {
    pub(crate) eng: Engine,
    pub(crate) src: &'a [char],
    /// The line of every offset `0..=src.len()`.
    pub(crate) nl: &'a [usize],
    pub(crate) spans: &'a [(usize, usize)],
    pub(crate) old: &'a [usize],
    pub(crate) saves: &'a [(usize, usize)],
    pub(crate) table: &'a lispexp::indent::IndentTable,
    pub(crate) cfg: FormatConfig,
    pub(crate) forms: &'a [Node],
    /// Per line, whether it is comment-only (see [`comment_only`]).
    pub(crate) comments: &'a [bool],
}

impl<'a> Frame<'a> {
    pub closed spec fn env(&self) -> Env {
        Env {
            eng: self.eng,
            src: self.src@,
            spans: Seq::new(
                self.spans@.len(),
                |i: int| (self.spans@[i].0 as int, self.spans@[i].1 as int),
            ),
            old: Seq::new(self.old@.len(), |i: int| self.old@[i] as int),
            saves: Seq::new(
                self.saves@.len(),
                |i: int| (self.saves@[i].0 as int, self.saves@[i].1 as int),
            ),
            table: indent_specs(*self.table),
            cfg: self.cfg,
            forms: self.forms@,
        }
    }

    pub(crate) proof fn lemma_env(&self)
        ensures
            self.env().src == self.src@,
            self.env().forms == self.forms@,
            self.env().cfg == self.cfg,
    {
    }

    pub closed spec fn wf(&self) -> bool {
        &&& self.nl@.len() == self.src@.len() + 1
        &&& forall|k: int| 0 <= k <= self.src@.len() ==> self.nl@[k] == nl_count(self.src@, k)
        &&& self.old@.len() == self.spans@.len()
        &&& forall|i: int|
            0 <= i < self.spans@.len() ==> (#[trigger] self.spans@[i]).0 + self.old@[i]
                <= self.spans@[i].1 <= self.src@.len()
        &&& forall|i: int|
            0 <= i < self.spans@.len() ==> self.old@[i] == indent_len(
                self.src@.subrange((#[trigger] self.spans@[i]).0 as int, self.spans@[i].1 as int),
            )
        &&& self.comments@.len() == self.spans@.len()
        &&& forall|i: int| 0 <= i < self.spans@.len() ==> #[trigger] self.comments@[i] == comment_only(self.env(), i)
    }
}

proof fn lemma_nl_count_clamp(s: Seq<char>, k: int)
    requires
        k > s.len(),
    ensures
        nl_count(s, k) == nl_count(s, s.len() as int),
{
}

/// The line of offset `o`, clamped to the source.
fn line_at_exec(f: &Frame, o: usize) -> (l: usize)
    requires
        f.wf(),
    ensures
        l == line_at(f.env(), o as int),
{
    let n = f.src.len();
    if o <= n {
        f.nl[o]
    } else {
        proof {
            lemma_nl_count_clamp(f.src@, o as int);
        }
        f.nl[n]
    }
}

fn col_exec(f: &Frame, ni: &[usize], off: usize) -> (r: usize)
    requires
        f.wf(),
    ensures
        r == col(f.env(), ni@, off as int),
{
    let ghost e = f.env();
    let n = f.src.len();
    let o = if off <= n {
        off
    } else {
        n
    };
    let l = line_at_exec(f, o);
    let (ls, od) = if l < f.spans.len() {
        (f.spans[l].0, f.old[l])
    } else {
        (0, 0)
    };
    assert(span_at(e, l as int).0 == ls && old_at(e, l as int) == od);
    let a = if ls + od <= o {
        ls + od
    } else {
        o
    };
    let content = string_of_range(f.src, a, o);
    let w = str_width(content.as_str());
    let base = if l < ni.len() {
        ni[l]
    } else {
        0
    };
    let raw = base.saturating_add(w);
    let mut saved: usize = 0;
    let mut k: usize = 0;
    while k < f.saves.len()
        invariant
            f.wf(),
            e == f.env(),
            k <= f.saves@.len(),
            saved == saved_before(e, k as int, l as int, off as int),
        decreases f.saves.len() - k,
    {
        let (so, sv) = f.saves[k];
        let sl = line_at_exec(f, so);
        if sl == l && so < off {
            saved = saved.saturating_add(sv);
        }
        k = k + 1;
    }
    raw.saturating_sub(saved)
}

fn first_containing_exec(data: &[Node], off: usize) -> (r: Option<usize>)
    ensures
        match r {
            Some(k) => first_containing(data@, off as int, 0) == Some(k as int) && k < data@.len(),
            None => first_containing(data@, off as int, 0) is None,
        },
{
    let mut k: usize = 0;
    while k < data.len()
        invariant
            k <= data@.len(),
            first_containing(data@, off as int, 0) == first_containing(data@, off as int, k as int),
        decreases data.len() - k,
    {
        if data[k].start < off && off < data[k].end {
            return Some(k);
        }
        k = k + 1;
    }
    None
}

fn container_at_exec<'n>(data: &'n [Node], off: usize) -> (r: Option<&'n Node>)
    ensures
        match r {
            Some(x) => container_at(data@, off as int) == Some(*x),
            None => container_at(data@, off as int) is None,
        },
    decreases data@, 0nat,
{
    match first_containing_exec(data, off) {
        Some(k) => container_in_exec(&data[k], off),
        None => None,
    }
}

fn container_one_exec<'n>(n: &'n Node, off: usize) -> (r: Option<&'n Node>)
    ensures
        match r {
            Some(x) => container_one(*n, off as int) == Some(*x),
            None => container_one(*n, off as int) is None,
        },
    decreases *n, 1nat,
{
    if n.start < off && off < n.end {
        container_in_exec(n, off)
    } else {
        None
    }
}

fn container_in_exec<'n>(n: &'n Node, off: usize) -> (r: Option<&'n Node>)
    ensures
        match r {
            Some(x) => container_in(*n, off as int) == Some(*x),
            None => container_in(*n, off as int) is None,
        },
    decreases *n, 0nat,
{
    match n.shape {
        Shape::List => match container_at_exec(n.items.as_slice(), off) {
            Some(x) => Some(x),
            None => match &n.tail {
                Some(t) => if t.start < off && off < t.end {
                    match container_in_exec(t, off) {
                        Some(x) => Some(x),
                        None => Some(n),
                    }
                } else {
                    Some(n)
                },
                None => Some(n),
            },
        },
        Shape::Prefixed => {
            match &n.arg {
                Some(a) => {
                    if a.start < off && off < a.end {
                        return container_in_exec(a, off);
                    }
                },
                None => {},
            }
            match &n.inner {
                Some(i) => container_one_exec(i, off),
                None => None,
            }
        },
        Shape::HashLiteral => match &n.inner {
            Some(i) => match container_one_exec(i, off) {
                Some(x) => Some(x),
                None => if i.start < off && off < i.end {
                    Some(&**i)
                } else {
                    None
                },
            },
            None => None,
        },
        _ => None,
    }
}

fn in_string_at_exec(data: &[Node], off: usize) -> (r: bool)
    ensures
        r == in_string_at(data@, off as int),
    decreases data@, 0nat,
{
    match first_containing_exec(data, off) {
        Some(k) => in_string_in_exec(&data[k], off),
        None => false,
    }
}

fn in_string_one_exec(n: &Node, off: usize) -> (r: bool)
    ensures
        r == in_string_one(*n, off as int),
    decreases *n, 1nat,
{
    n.start < off && off < n.end && in_string_in_exec(n, off)
}

fn in_string_in_exec(n: &Node, off: usize) -> (r: bool)
    ensures
        r == in_string_in(*n, off as int),
    decreases *n, 0nat,
{
    match n.shape {
        Shape::Str => true,
        Shape::List => {
            if in_string_at_exec(n.items.as_slice(), off) {
                return true;
            }
            match &n.tail {
                Some(t) => in_string_one_exec(t, off),
                None => false,
            }
        },
        Shape::Prefixed => {
            let a = match &n.inner {
                Some(i) => in_string_one_exec(i, off),
                None => false,
            };
            if a {
                return true;
            }
            match &n.arg {
                Some(x) => in_string_one_exec(x, off),
                None => false,
            }
        },
        Shape::HashLiteral => match &n.inner {
            Some(i) => in_string_one_exec(i, off),
            None => false,
        },
        _ => false,
    }
}

fn path_at_exec<'n>(data: &'n [Node], off: usize, out: &mut Vec<&'n Node>)
    ensures
        final(out)@.len() == old(out)@.len() + path_at(data@, off as int).len(),
        forall|i: int| 0 <= i < old(out)@.len() ==> final(out)@[i] == old(out)@[i],
        forall|i: int|
            0 <= i < path_at(data@, off as int).len() ==> *final(out)@[old(out)@.len() + i]
                == path_at(data@, off as int)[i],
    decreases data@, 0nat,
{
    match first_containing_exec(data, off) {
        Some(k) => path_in_exec(&data[k], off, out),
        None => {},
    }
}

fn path_one_exec<'n>(n: &'n Node, off: usize, out: &mut Vec<&'n Node>)
    ensures
        final(out)@.len() == old(out)@.len() + path_one(*n, off as int).len(),
        forall|i: int| 0 <= i < old(out)@.len() ==> final(out)@[i] == old(out)@[i],
        forall|i: int|
            0 <= i < path_one(*n, off as int).len() ==> *final(out)@[old(out)@.len() + i]
                == path_one(*n, off as int)[i],
    decreases *n, 1nat,
{
    if n.start < off && off < n.end {
        path_in_exec(n, off, out);
    }
}

fn path_in_exec<'n>(n: &'n Node, off: usize, out: &mut Vec<&'n Node>)
    ensures
        final(out)@.len() == old(out)@.len() + path_in(*n, off as int).len(),
        forall|i: int| 0 <= i < old(out)@.len() ==> final(out)@[i] == old(out)@[i],
        forall|i: int|
            0 <= i < path_in(*n, off as int).len() ==> *final(out)@[old(out)@.len() + i]
                == path_in(*n, off as int)[i],
    decreases *n, 0nat,
{
    let ghost o0 = out@;
    match n.shape {
        Shape::List => {
            out.push(n);
            let ghost o1 = out@;
            path_at_exec(n.items.as_slice(), off, out);
            let ghost o2 = out@;
            match &n.tail {
                Some(t) => path_one_exec(t, off, out),
                None => {},
            }
            assert forall|i: int| 0 <= i < path_in(*n, off as int).len() implies *out@[o0.len()
                + i] == path_in(*n, off as int)[i] by {
                let pa = path_at(n.items@, off as int);
                if i == 0 {
                } else if i < 1 + pa.len() {
                    assert(out@[o0.len() + i] == o2[o1.len() + (i - 1)]);
                } else {
                }
            }
        },
        Shape::Prefixed => {
            let ghost o1 = out@;
            match &n.arg {
                Some(a) => path_one_exec(a, off, out),
                None => {},
            }
            let ghost o2 = out@;
            match &n.inner {
                Some(i) => path_one_exec(i, off, out),
                None => {},
            }
            assert forall|i: int| 0 <= i < path_in(*n, off as int).len() implies *out@[o0.len()
                + i] == path_in(*n, off as int)[i] by {
                let pa = match n.arg {
                    Some(a) => path_one(*a, off as int),
                    None => Seq::empty(),
                };
                if i < pa.len() {
                    assert(out@[o0.len() + i] == o2[o1.len() + i]);
                }
            }
        },
        Shape::HashLiteral => match &n.inner {
            Some(i) => path_one_exec(i, off, out),
            None => {},
        },
        _ => {},
    }
}

fn head_is_symbol_like_exec(src: &[char], n: &Node) -> (r: bool)
    ensures
        r == head_is_symbol_like(src@, *n),
    decreases *n,
{
    match n.shape {
        Shape::Symbol | Shape::Keyword | Shape::Number | Shape::Bool => true,
        Shape::Char => n.start <= n.end && n.end <= src.len() && n.start < n.end && src[n.start]
            == '?',
        Shape::Prefixed => match &n.inner {
            Some(i) => head_is_symbol_like_exec(src, i),
            None => false,
        },
        _ => false,
    }
}

fn normal_indent_exec(f: &Frame, ni: &[usize], c: &Node, open_col: usize, off: usize) -> (r: usize)
    requires
        f.wf(),
    ensures
        r == normal_indent(f.env(), ni@, *c, open_col as int, off as int),
{
    if c.items.len() == 0 {
        return open_col.saturating_add(1);
    }
    let first = &c.items[0];
    let lf = line_at_exec(f, first.start);
    if lf >= line_at_exec(f, off) {
        return open_col.saturating_add(1);
    }
    let lc = line_at_exec(f, c.start);
    let ws = c.start < usize::MAX && first.start > c.start + 1 && lf == lc;
    assert(ws == (first.start > c.start + 1 && line_at(f.env(), first.start as int) == line_at(
        f.env(),
        c.start as int,
    )));
    if !head_is_symbol_like_exec(f.src, first) || ws {
        return col_exec(f, ni, first.start);
    }
    if c.items.len() > 1 {
        if lc == line_at_exec(f, c.items[1].start) {
            col_exec(f, ni, c.items[1].start)
        } else {
            col_exec(f, ni, first.start)
        }
    } else {
        match c.dot {
            Some(d) => if line_at_exec(f, d) == lc {
                col_exec(f, ni, d)
            } else {
                col_exec(f, ni, first.start)
            },
            None => col_exec(f, ni, first.start),
        }
    }
}

fn count_done_exec(items: &[Node], off: usize) -> (r: usize)
    ensures
        r == count_done(items@, off as int, items@.len() as int),
        r <= items@.len(),
{
    let mut k: usize = 1;
    let mut r: usize = 0;
    while k < items.len()
        invariant
            1 <= k,
            k <= items@.len() || items@.len() == 0,
            r == count_done(items@, off as int, k as int),
            r <= k,
        decreases items.len() - k,
    {
        if items[k].end <= off {
            r = r + 1;
        }
        k = k + 1;
    }
    r
}

fn specform_exec(
    f: &Frame,
    ni: &[usize],
    items: &[Node],
    off: usize,
    open_col: usize,
    n: u32,
    normal: usize,
    body: usize,
) -> (r: usize)
    requires
        f.wf(),
        items@.len() > 0,
    ensures
        r == specform(f.env(), ni@, items@, off as int, open_col as int, n as int, normal as int, body as int),
{
    let k = count_done_exec(items, off);
    if (k as u64) < (n as u64) {
        if k <= 1 {
            open_col.saturating_add(body.saturating_add(body))
        } else {
            normal
        }
    } else {
        let open_line = line_at_exec(f, items[0].start);
        let nn = n as usize;
        if nn < items.len() - 1 && line_at_exec(f, items[nn + 1].start) < line_at_exec(f, off) {
            if line_at_exec(f, items[nn + 1].start) > open_line {
                col_exec(f, ni, items[nn + 1].start)
            } else {
                normal
            }
        } else {
            open_col.saturating_add(body)
        }
    }
}

/// The source text of `n` as a `String` (empty for a span outside the source).
pub(crate) fn node_string(src: &[char], n: &Node) -> (s: String)
    ensures
        s@ == node_text(src@, *n),
{
    if n.start <= n.end && n.end <= src.len() {
        string_of_range(src, n.start, n.end)
    } else {
        String::new()
    }
}

fn indent_for_exec(f: &Frame, ni: &[usize], c: &Node, off: usize, body: usize) -> (r: usize)
    requires
        f.wf(),
    ensures
        r == indent_for(f.env(), ni@, *c, off as int, body as int),
{
    if c.shape != Shape::List {
        return 0;
    }
    let open_col = col_exec(f, ni, c.start);
    let normal = normal_indent_exec(f, ni, c, open_col, off);
    if c.items.len() > 0 && c.items[0].shape == Shape::Symbol {
        let h = node_string(f.src, &c.items[0]);
        match lookup(f.table, h.as_str()) {
            Some(IndentRule::Number(n)) => specform_exec(
                f,
                ni,
                c.items.as_slice(),
                off,
                open_col,
                n,
                normal,
                body,
            ),
            Some(IndentRule::Defun) => open_col.saturating_add(body),
            _ => normal,
        }
    } else {
        normal
    }
}

fn is_flet_head_exec(h: &[char]) -> (b: bool)
    ensures
        b == is_flet_head(h@),
{
    let a = chars_of("cl-flet");
    let b = chars_of("cl-flet*");
    let c = chars_of("cl-labels");
    let d = chars_of("cl-macrolet");
    seq_eq(h, a.as_slice()) || seq_eq(h, b.as_slice()) || seq_eq(h, c.as_slice()) || seq_eq(
        h,
        d.as_slice(),
    )
}


fn flet_indent_exec(f: &Frame, ni: &[usize], path: &Vec<&Node>, off: usize, body: usize) -> (r: Option<usize>)
    requires
        f.wf(),
    ensures
        r == (match flet_indent(f.env(), ni@, Seq::new(path@.len(), |i: int| *path@[i]), off as int, body as int) {
            Some(v) => Some(v as usize),
            None => None,
        }),
{
    let ghost p = Seq::new(path@.len(), |i: int| *path@[i]);
    let n = path.len();
    if n < 3 {
        return None;
    }
    let form: &Node = path[n - 3];
    let bl: &Node = path[n - 2];
    let b: &Node = path[n - 1];
    assert(*form == p[n - 3] && *bl == p[n - 2] && *b == p[n - 1]);
    if form.shape != Shape::List {
        return None;
    }
    if !(form.items.len() > 0 && form.items[0].shape == Shape::Symbol) {
        return None;
    }
    let h = node_string(f.src, &form.items[0]);
    let hc = chars_of(h.as_str());
    if !is_flet_head_exec(hc.as_slice()) {
        return None;
    }
    if !(form.items.len() > 1 && form.items[1].start == bl.start) {
        return None;
    }
    if b.shape != Shape::List || b.items.len() == 0 {
        return None;
    }
    if b.items[0].shape != Shape::Symbol {
        return None;
    }
    if off <= b.items[0].end {
        return None;
    }
    Some(col_exec(f, ni, b.start).saturating_add(body))
}

fn code_indent_exec(f: &Frame, ni: &[usize], off: usize) -> (r: usize)
    requires
        f.wf(),
    ensures
        r == code_indent(f.env(), ni@, off as int),
{
    let body = f.cfg.body_indent;
    match container_at_exec(f.forms, off) {
        Some(c) => match f.eng {
            Engine::Scheme => scheme_indent_exec(f, ni, c, off, body),
            Engine::CommonLisp => commonlisp::cl_indent_exec(f, ni, c, off),
            Engine::Clojure(d) => clojure::clj_indent_exec(f, ni, c, off, f.cfg.clojure_fixed_indent, d),
            Engine::Elisp | Engine::Islisp => {
                let mut path: Vec<&Node> = Vec::new();
                path_at_exec(f.forms, off, &mut path);
                assert(Seq::new(path@.len(), |i: int| *path@[i]) == path_at(f.env().forms, off as int));
                match flet_indent_exec(f, ni, &path, off, body) {
                    Some(v) => v,
                    None => indent_for_exec(f, ni, c, off, body),
                }
            },
        },
        None => 0,
    }
}


// --- The Scheme engine -------------------------------------------------------------

/// A `scheme-indent-function` property, as `scheme-mode` holds it.
#[derive(Debug, Clone, Copy, PartialEq, Eq, Structural)]
pub enum SchemeRule {
    /// `defun`: every continuation line is a body line.
    Defun,
    /// An integer spec: that many distinguished arguments, then a body.
    Number(u32),
    /// `scheme-let-indent`: a named `let` has two distinguished arguments,
    /// an ordinary one one.
    Let,
}

/// The heads whose `scheme-indent-function` is 0.
pub open spec fn scheme_spec_0(h: Seq<char>) -> bool {
    h == "begin"@
        || h == "delay"@
        || h == "make-environment"@
        || h == "match-lambda"@
        || h == "match-lambda*"@
        || h == "sequence"@
        || h == "with-output-to-string"@
}

fn scheme_spec_0_exec(h: &[char]) -> (b: bool)
    ensures
        b == scheme_spec_0(h@),
{
    eq_lit(h, "begin")
        || eq_lit(h, "delay")
        || eq_lit(h, "make-environment")
        || eq_lit(h, "match-lambda")
        || eq_lit(h, "match-lambda*")
        || eq_lit(h, "sequence")
        || eq_lit(h, "with-output-to-string")
}

/// The heads whose `scheme-indent-function` is 1.
pub open spec fn scheme_spec_1(h: Seq<char>) -> bool {
    h == "and-let*"@
        || h == "call-with-input-file"@
        || h == "call-with-output-file"@
        || h == "call-with-port"@
        || h == "call-with-values"@
        || h == "case"@
        || h == "check-case"@
        || h == "define-library"@
        || h == "define-record-type"@
        || h == "define-values"@
        || h == "eval-when"@
        || h == "guard"@
        || h == "lambda"@
        || h == "lambda-checked"@
        || h == "let*"@
        || h == "let*-values"@
        || h == "let-syntax"@
        || h == "let-values"@
        || h == "letrec"@
        || h == "letrec*"@
        || h == "letrec-syntax"@
        || h == "library"@
        || h == "match"@
        || h == "match-let*"@
        || h == "match-letrec"@
        || h == "opt-lambda"@
        || h == "opt*-lambda"@
        || h == "parameterize"@
        || h == "test-group"@
        || h == "test-group-with-cleanup"@
        || h == "unless"@
        || h == "when"@
        || h == "with-input-from-file"@
        || h == "with-input-from-port"@
        || h == "with-output-to-file"@
        || h == "with-output-to-port"@
        || h == "with-syntax"@
        || h == "λ"@
        || h == "element"@
        || h == "make"@
        || h == "mode"@
        || h == "root"@
        || h == "style"@
        || h == "with-mode"@
        || h == "access-components"@
        || h == "assignment-components"@
        || h == "combination-components"@
        || h == "comment-components"@
        || h == "conditional-components"@
        || h == "declaration-components"@
        || h == "definition-components"@
        || h == "delay-components"@
        || h == "disjunction-components"@
        || h == "fluid-let"@
        || h == "in-package"@
        || h == "in-package-components"@
        || h == "lambda-components"@
        || h == "lambda-components*"@
        || h == "lambda-components**"@
        || h == "list-search-negative"@
        || h == "list-search-positive"@
        || h == "list-transform-negative"@
        || h == "list-transform-positive"@
        || h == "local-declare"@
        || h == "macro"@
        || h == "named-lambda"@
        || h == "open-block-components"@
        || h == "pathname-components"@
        || h == "procedure-components"@
        || h == "sequence-components"@
        || h == "unassigned?-components"@
        || h == "unbound?-components"@
        || h == "using-syntax"@
        || h == "variable-components"@
        || h == "with-input-from-string"@
        || h == "with-values"@
}

fn scheme_spec_1_exec(h: &[char]) -> (b: bool)
    ensures
        b == scheme_spec_1(h@),
{
    eq_lit(h, "and-let*")
        || eq_lit(h, "call-with-input-file")
        || eq_lit(h, "call-with-output-file")
        || eq_lit(h, "call-with-port")
        || eq_lit(h, "call-with-values")
        || eq_lit(h, "case")
        || eq_lit(h, "check-case")
        || eq_lit(h, "define-library")
        || eq_lit(h, "define-record-type")
        || eq_lit(h, "define-values")
        || eq_lit(h, "eval-when")
        || eq_lit(h, "guard")
        || eq_lit(h, "lambda")
        || eq_lit(h, "lambda-checked")
        || eq_lit(h, "let*")
        || eq_lit(h, "let*-values")
        || eq_lit(h, "let-syntax")
        || eq_lit(h, "let-values")
        || eq_lit(h, "letrec")
        || eq_lit(h, "letrec*")
        || eq_lit(h, "letrec-syntax")
        || eq_lit(h, "library")
        || eq_lit(h, "match")
        || eq_lit(h, "match-let*")
        || eq_lit(h, "match-letrec")
        || eq_lit(h, "opt-lambda")
        || eq_lit(h, "opt*-lambda")
        || eq_lit(h, "parameterize")
        || eq_lit(h, "test-group")
        || eq_lit(h, "test-group-with-cleanup")
        || eq_lit(h, "unless")
        || eq_lit(h, "when")
        || eq_lit(h, "with-input-from-file")
        || eq_lit(h, "with-input-from-port")
        || eq_lit(h, "with-output-to-file")
        || eq_lit(h, "with-output-to-port")
        || eq_lit(h, "with-syntax")
        || eq_lit(h, "λ")
        || eq_lit(h, "element")
        || eq_lit(h, "make")
        || eq_lit(h, "mode")
        || eq_lit(h, "root")
        || eq_lit(h, "style")
        || eq_lit(h, "with-mode")
        || eq_lit(h, "access-components")
        || eq_lit(h, "assignment-components")
        || eq_lit(h, "combination-components")
        || eq_lit(h, "comment-components")
        || eq_lit(h, "conditional-components")
        || eq_lit(h, "declaration-components")
        || eq_lit(h, "definition-components")
        || eq_lit(h, "delay-components")
        || eq_lit(h, "disjunction-components")
        || eq_lit(h, "fluid-let")
        || eq_lit(h, "in-package")
        || eq_lit(h, "in-package-components")
        || eq_lit(h, "lambda-components")
        || eq_lit(h, "lambda-components*")
        || eq_lit(h, "lambda-components**")
        || eq_lit(h, "list-search-negative")
        || eq_lit(h, "list-search-positive")
        || eq_lit(h, "list-transform-negative")
        || eq_lit(h, "list-transform-positive")
        || eq_lit(h, "local-declare")
        || eq_lit(h, "macro")
        || eq_lit(h, "named-lambda")
        || eq_lit(h, "open-block-components")
        || eq_lit(h, "pathname-components")
        || eq_lit(h, "procedure-components")
        || eq_lit(h, "sequence-components")
        || eq_lit(h, "unassigned?-components")
        || eq_lit(h, "unbound?-components")
        || eq_lit(h, "using-syntax")
        || eq_lit(h, "variable-components")
        || eq_lit(h, "with-input-from-string")
        || eq_lit(h, "with-values")
}

/// The heads whose `scheme-indent-function` is 2.
pub open spec fn scheme_spec_2(h: Seq<char>) -> bool {
    h == "do"@
        || h == "let-optionals"@
        || h == "let-optionals*"@
        || h == "receive"@
        || h == "syntax-case"@
        || h == "syntax-table-define"@
}

fn scheme_spec_2_exec(h: &[char]) -> (b: bool)
    ensures
        b == scheme_spec_2(h@),
{
    eq_lit(h, "do")
        || eq_lit(h, "let-optionals")
        || eq_lit(h, "let-optionals*")
        || eq_lit(h, "receive")
        || eq_lit(h, "syntax-case")
        || eq_lit(h, "syntax-table-define")
}

/// The heads whose `scheme-indent-function` is 3.
pub open spec fn scheme_spec_3(h: Seq<char>) -> bool {
    h == "dynamic-wind"@
}

fn scheme_spec_3_exec(h: &[char]) -> (b: bool)
    ensures
        b == scheme_spec_3(h@),
{
    eq_lit(h, "dynamic-wind")
}

/// The `scheme-indent-function` property of the head `h` in a default
/// `scheme-mode` buffer (the core, DSSSL and MIT blocks of `scheme.el`).
pub open spec fn scheme_rule(h: Seq<char>) -> Option<SchemeRule> {
    if h == "let"@ || h == "match-let"@ {
        Some(SchemeRule::Let)
    } else if h == "syntax-rules"@ {
        Some(SchemeRule::Defun)
    } else if scheme_spec_0(h) {
        Some(SchemeRule::Number(0))
    } else if scheme_spec_1(h) {
        Some(SchemeRule::Number(1))
    } else if scheme_spec_2(h) {
        Some(SchemeRule::Number(2))
    } else if scheme_spec_3(h) {
        Some(SchemeRule::Number(3))
    } else {
        None
    }
}

fn scheme_rule_exec(h: &[char]) -> (r: Option<SchemeRule>)
    ensures
        r == scheme_rule(h@),
{
    if eq_lit(h, "let") || eq_lit(h, "match-let") {
        Some(SchemeRule::Let)
    } else if eq_lit(h, "syntax-rules") {
        Some(SchemeRule::Defun)
    } else if scheme_spec_0_exec(h) {
        Some(SchemeRule::Number(0))
    } else if scheme_spec_1_exec(h) {
        Some(SchemeRule::Number(1))
    } else if scheme_spec_2_exec(h) {
        Some(SchemeRule::Number(2))
    } else if scheme_spec_3_exec(h) {
        Some(SchemeRule::Number(3))
    } else {
        None
    }
}

/// The head symbol of a list for the property lookup, seen through reader
/// prefixes (`'sym`, `` `sym ``, `,sym`, `#'sym`).
pub open spec fn scheme_head(n: Node) -> Option<Seq<char>>
    decreases n,
{
    match n.shape {
        Shape::Symbol => Some(n.key@),
        Shape::Prefixed => match n.inner {
            Some(i) => scheme_head(*i),
            None => None,
        },
        _ => None,
    }
}

fn scheme_head_exec(n: &Node) -> (r: Option<Vec<char>>)
    ensures
        match r {
            Some(h) => scheme_head(*n) == Some(h@),
            None => scheme_head(*n) is None,
        },
    decreases *n,
{
    match n.shape {
        Shape::Symbol => Some(chars_of(n.key.as_str())),
        Shape::Prefixed => match &n.inner {
            Some(i) => scheme_head_exec(i),
            None => None,
        },
        _ => None,
    }
}

/// How many of `items[..k]` end at or before `off`.
pub open spec fn count_ended(items: Seq<Node>, off: int, k: int) -> int
    decreases k,
{
    if k <= 0 || k > items.len() {
        0
    } else {
        count_ended(items, off, k - 1) + (if items[k - 1].end <= off {
            1int
        } else {
            0int
        })
    }
}

/// The index of the last of `items[..k]` that ends at or before `off`
/// (`-1` when none does).
pub open spec fn last_ended(items: Seq<Node>, off: int, k: int) -> int
    decreases k,
{
    if k <= 0 || k > items.len() {
        -1
    } else if items[k - 1].end <= off {
        k - 1
    } else {
        last_ended(items, off, k - 1)
    }
}

/// The index of the first of `items[..k]` starting on line `l` (`-1` when
/// none does).
pub open spec fn first_on_line(e: Env, items: Seq<Node>, l: int, k: int) -> int
    decreases k,
{
    if k <= 0 || k > items.len() {
        -1
    } else if first_on_line(e, items, l, k - 1) >= 0 {
        first_on_line(e, items, l, k - 1)
    } else if line_at(e, items[k - 1].start as int) == l {
        k - 1
    } else {
        -1
    }
}

/// The normal indent `scheme-indent-function` is handed: no element ended
/// before the line, or the first element on the line itself, gives one past
/// the open paren; a list, a head that is not symbol-like, or whitespace
/// after the open paren aligns under the first element; a call with only its
/// head done goes one past the open paren (or under the `.` of a dotted pair
/// on the open line); a call whose last done element begins a later line
/// aligns under it; otherwise under the second element.
pub open spec fn scheme_normal(e: Env, ni: Seq<usize>, c: Node, open_col: int, off: int) -> int {
    let items = c.items@;
    if items.len() == 0 {
        sat(open_col + 1)
    } else {
        let first = items[0];
        let done = count_ended(items, off, items.len() as int);
        if done == 0 || line_at(e, first.start as int) >= line_at(e, off) {
            sat(open_col + 1)
        } else if first.shape == Shape::List {
            col(e, ni, first.start as int)
        } else {
            let ws = first.start > c.start + 1 && line_at(e, first.start as int) == line_at(e, c.start as int);
            if !head_is_symbol_like(e.src, first) || ws {
                col(e, ni, first.start as int)
            } else if done <= 1 {
                if items.len() == 1 && c.dot is Some && line_at(e, c.dot->0 as int) == line_at(e, c.start as int) {
                    col(e, ni, c.dot->0 as int)
                } else {
                    sat(open_col + 1)
                }
            } else {
                let p = last_ended(items, off, items.len() as int);
                let pl = line_at(e, items[p].start as int);
                let q = first_on_line(e, items, pl, items.len() as int);
                if pl > line_at(e, c.start as int) && 0 <= q && items[q].start == items[p].start {
                    col(e, ni, items[p].start as int)
                } else if items.len() > 1 {
                    col(e, ni, items[1].start as int)
                } else {
                    sat(open_col + 1)
                }
            }
        }
    }
}

/// `scheme-indent-function`: the head's property decides; a `def…` head
/// (longer than three bytes) without one indents as `defun`; anything else
/// takes the normal indent.
pub open spec fn scheme_indent(e: Env, ni: Seq<usize>, c: Node, off: int, body: int) -> int {
    if c.shape != Shape::List {
        0
    } else {
        let items = c.items@;
        let open_col = col(e, ni, c.start as int);
        let normal = scheme_normal(e, ni, c, open_col, off);
        let head = if items.len() > 0 {
            scheme_head(items[0])
        } else {
            None
        };
        match head {
            None => normal,
            Some(h) => match scheme_rule(h) {
                Some(SchemeRule::Defun) => sat(open_col + body),
                Some(SchemeRule::Number(n)) => specform(e, ni, items, off, open_col, n as int, normal, body),
                Some(SchemeRule::Let) => specform(
                    e,
                    ni,
                    items,
                    off,
                    open_col,
                    if items.len() > 1 && head_is_symbol_like(e.src, items[1]) {
                        2
                    } else {
                        1
                    },
                    normal,
                    body,
                ),
                None => if crate::text::utf8_len_seq(h) > 3 && has_prefix_at(h, 0, "def"@) {
                    sat(open_col + body)
                } else {
                    normal
                },
            },
        }
    }
}

fn count_ended_exec(items: &[Node], off: usize) -> (r: usize)
    ensures
        r == count_ended(items@, off as int, items@.len() as int),
{
    let mut n: usize = 0;
    let mut k: usize = 0;
    while k < items.len()
        invariant
            k <= items@.len(),
            n == count_ended(items@, off as int, k as int),
            n <= k,
        decreases items.len() - k,
    {
        if items[k].end <= off {
            n = n + 1;
        }
        k = k + 1;
    }
    n
}

proof fn lemma_last_ended(items: Seq<Node>, off: int, k: int)
    requires
        0 <= k <= items.len(),
    ensures
        -1 <= last_ended(items, off, k) < k,
        count_ended(items, off, k) > 0 ==> last_ended(items, off, k) >= 0,
    decreases k,
{
    if k > 0 {
        lemma_last_ended(items, off, k - 1);
    }
}

proof fn lemma_first_on_line(e: Env, items: Seq<Node>, l: int, k: int)
    requires
        0 <= k <= items.len(),
    ensures
        -1 <= first_on_line(e, items, l, k) < k,
    decreases k,
{
    if k > 0 {
        lemma_first_on_line(e, items, l, k - 1);
    }
}

fn scheme_normal_exec(f: &Frame, ni: &[usize], c: &Node, open_col: usize, off: usize) -> (r: usize)
    requires
        f.wf(),
    ensures
        r == scheme_normal(f.env(), ni@, *c, open_col as int, off as int),
{
    let ghost e = f.env();
    let items = c.items.as_slice();
    if items.len() == 0 {
        return open_col.saturating_add(1);
    }
    let first = &items[0];
    let done = count_ended_exec(items, off);
    if done == 0 || line_at_exec(f, first.start) >= line_at_exec(f, off) {
        return open_col.saturating_add(1);
    }
    if first.shape == Shape::List {
        return col_exec(f, ni, first.start);
    }
    let ws = first.start > c.start && first.start - c.start > 1 && line_at_exec(f, first.start) == line_at_exec(f, c.start);
    if !head_is_symbol_like_exec(f.src, first) || ws {
        return col_exec(f, ni, first.start);
    }
    if done <= 1 {
        if items.len() == 1 {
            match c.dot {
                Some(d) => {
                    if line_at_exec(f, d) == line_at_exec(f, c.start) {
                        return col_exec(f, ni, d);
                    }
                },
                None => {},
            }
        }
        return open_col.saturating_add(1);
    }
    proof {
        lemma_last_ended(items@, off as int, items@.len() as int);
    }
    let mut p: usize = items.len();
    while p > 0 && items[p - 1].end > off
        invariant
            p <= items@.len(),
            last_ended(items@, off as int, p as int) == last_ended(items@, off as int, items@.len() as int),
        decreases p,
    {
        p = p - 1;
    }
    let p = p - 1;
    let pl = line_at_exec(f, items[p].start);
    let mut q: usize = 0;
    while q < items.len() && line_at_exec(f, items[q].start) != pl
        invariant
            f.wf(),
            q <= items@.len(),
            forall|j: int| 0 <= j < q ==> line_at(e, (#[trigger] items@[j]).start as int) != pl,
            e == f.env(),
        decreases items.len() - q,
    {
        q = q + 1;
    }
    proof {
        lemma_first_on_line_is(e, items@, pl as int, q as int, items@.len() as int);
    }
    if pl > line_at_exec(f, c.start) && q < items.len() && items[q].start == items[p].start {
        col_exec(f, ni, items[p].start)
    } else if items.len() > 1 {
        col_exec(f, ni, items[1].start)
    } else {
        open_col.saturating_add(1)
    }
}

proof fn lemma_first_on_line_is(e: Env, items: Seq<Node>, l: int, q: int, k: int)
    requires
        0 <= q <= items.len(),
        0 <= k <= items.len(),
        forall|j: int| 0 <= j < q ==> line_at(e, (#[trigger] items[j]).start as int) != l,
        q < items.len() ==> line_at(e, items[q].start as int) == l,
    ensures
        first_on_line(e, items, l, k) == (if q < k {
            q
        } else {
            -1
        }),
    decreases k,
{
    if k > 0 {
        lemma_first_on_line_is(e, items, l, q, k - 1);
    }
}

fn scheme_indent_exec(f: &Frame, ni: &[usize], c: &Node, off: usize, body: usize) -> (r: usize)
    requires
        f.wf(),
    ensures
        r == scheme_indent(f.env(), ni@, *c, off as int, body as int),
{
    if c.shape != Shape::List {
        return 0;
    }
    let items = c.items.as_slice();
    let open_col = col_exec(f, ni, c.start);
    let normal = scheme_normal_exec(f, ni, c, open_col, off);
    if items.len() == 0 {
        return normal;
    }
    let h = match scheme_head_exec(&items[0]) {
        Some(h) => h,
        None => {
            return normal;
        },
    };
    match scheme_rule_exec(h.as_slice()) {
        Some(SchemeRule::Defun) => open_col.saturating_add(body),
        Some(SchemeRule::Number(n)) => specform_exec(f, ni, items, off, open_col, n, normal, body),
        Some(SchemeRule::Let) => {
            let n: u32 = if items.len() > 1 && head_is_symbol_like_exec(f.src, &items[1]) {
                2
            } else {
                1
            };
            specform_exec(f, ni, items, off, open_col, n, normal, body)
        },
        None => {
            let d = chars_of("def");
            proof {
                reveal_strlit("def");
            }
            if crate::text::seq_utf8_len(h.as_slice()) > 3 && starts_with_at(h.as_slice(), 0, d.as_slice()) {
                open_col.saturating_add(body)
            } else {
                normal
            }
        },
    }
}


// --- Nameless savings -------------------------------------------------------------

fn saves_range_exec(src: &[char], nl: &Nameless, data: &[Node], out: &mut Vec<(usize, usize)>)
    ensures
        final(out)@.len() == old(out)@.len() + saves_range(src@, nl@, data@, data@.len() as int).len(),
        forall|i: int| 0 <= i < old(out)@.len() ==> final(out)@[i] == old(out)@[i],
        forall|i: int|
            0 <= i < saves_range(src@, nl@, data@, data@.len() as int).len() ==> ((
            #[trigger] final(out)@[old(out)@.len() + i]).0 as int, final(out)@[old(out)@.len()
                + i].1 as int) == saves_range(src@, nl@, data@, data@.len() as int)[i],
    decreases data@, 0int,
{
    let ghost o0 = out@;
    let mut k: usize = 0;
    while k < data.len()
        invariant
            k <= data@.len(),
            out@.len() == o0.len() + saves_range(src@, nl@, data@, k as int).len(),
            forall|i: int| 0 <= i < o0.len() ==> out@[i] == o0[i],
            forall|i: int|
                0 <= i < saves_range(src@, nl@, data@, k as int).len() ==> ((#[trigger] out@[o0.len()
                    + i]).0 as int, out@[o0.len() + i].1 as int) == saves_range(
                    src@,
                    nl@,
                    data@,
                    k as int,
                )[i],
        decreases data.len() - k,
    {
        let ghost o1 = out@;
        saves_in_exec(src, nl, &data[k], out);
        proof {
            let a = saves_range(src@, nl@, data@, k as int);
            let b = saves_in(src@, nl@, data@[k as int]);
            assert(saves_range(src@, nl@, data@, k + 1) == a + b);
            assert forall|i: int| 0 <= i < (a + b).len() implies ((#[trigger] out@[o0.len()
                + i]).0 as int, out@[o0.len() + i].1 as int) == (a + b)[i] by {
                if i < a.len() {
                    assert(out@[o0.len() + i] == o1[o0.len() + i]);
                } else {
                    assert(out@[o0.len() + i] == out@[o1.len() + (i - a.len())]);
                }
            }
        }
        k = k + 1;
    }
}

spec fn saves_tail(src: Seq<char>, nl: Seq<(Seq<char>, nat)>, n: Node) -> Seq<(int, int)> {
    match n.tail {
        Some(t) => saves_in(src, nl, *t),
        None => Seq::empty(),
    }
}

fn saves_in_exec(src: &[char], nl: &Nameless, n: &Node, out: &mut Vec<(usize, usize)>)
    ensures
        final(out)@.len() == old(out)@.len() + saves_in(src@, nl@, *n).len(),
        forall|i: int| 0 <= i < old(out)@.len() ==> final(out)@[i] == old(out)@[i],
        forall|i: int|
            0 <= i < saves_in(src@, nl@, *n).len() ==> ((#[trigger] final(out)@[old(out)@.len()
                + i]).0 as int, final(out)@[old(out)@.len() + i].1 as int) == saves_in(
                src@,
                nl@,
                *n,
            )[i],
    decreases *n, 0int,
{
    let ghost o0 = out@;
    match n.shape {
        Shape::Symbol => {
            let text = node_string(src, n);
            let sv = nl.saving(text.as_str());
            if sv > 0 {
                out.push((n.start, sv));
            }
        },
        Shape::List => {
            saves_range_exec(src, nl, n.items.as_slice(), out);
            let ghost o1 = out@;
            match &n.tail {
                Some(t) => saves_in_exec(src, nl, t, out),
                None => {},
            }
            proof {
                let a = saves_range(src@, nl@, n.items@, n.items@.len() as int);
                let b = saves_tail(src@, nl@, *n);
                assert forall|i: int| 0 <= i < (a + b).len() implies ((#[trigger] out@[o0.len()
                    + i]).0 as int, out@[o0.len() + i].1 as int) == (a + b)[i] by {
                    if i < a.len() {
                        assert(out@[o0.len() + i] == o1[o0.len() + i]);
                    } else {
                        assert(out@[o0.len() + i] == out@[o1.len() + (i - a.len())]);
                    }
                }
            }
        },
        Shape::Prefixed => match &n.inner {
            Some(i) => saves_in_exec(src, nl, i, out),
            None => {},
        },
        _ => {},
    }
}

// --- The line driver ----------------------------------------------------------------

/// Append `n` copies of `c` to `out`.
fn push_repeat(out: &mut String, c: char, n: usize)
    ensures
        final(out)@ == old(out)@ + repeat(c, n as nat),
{
    let mut k: usize = 0;
    while k < n
        invariant
            k <= n,
            out@ == old(out)@ + repeat(c, k as nat),
        decreases n - k,
    {
        push_char(out, c);
        assert(repeat(c, (k + 1) as nat) == repeat(c, k as nat).push(c));
        k = k + 1;
    }
}

/// Append the indent of `col` columns to `out`.
fn push_render(out: &mut String, cfg: &FormatConfig, col: usize)
    ensures
        final(out)@ == old(out)@ + render(*cfg, col as nat),
{
    if cfg.indent_tabs && cfg.tab_width > 0 {
        push_repeat(out, '\t', col / cfg.tab_width);
        push_repeat(out, ' ', col % cfg.tab_width);
    } else {
        push_repeat(out, ' ', col);
    }
}

/// Whether `src[a..b]` starts with `p`.
fn prefix_within(src: &[char], a: usize, b: usize, p: &str) -> (r: bool)
    requires
        a <= b <= src@.len(),
    ensures
        r == has_prefix_at(src@.subrange(a as int, b as int), 0, p@),
{
    let pc = chars_of(p);
    if pc.len() > b - a {
        return false;
    }
    let r = starts_with_at(src, a, pc.as_slice());
    assert(src@.subrange(a as int, b as int).subrange(0, pc@.len() as int) == src@.subrange(
        a as int,
        a + pc@.len(),
    ));
    r
}

proof fn lemma_trim_subrange(s: Seq<char>, a: int, b: int, k: int)
    requires
        0 <= a <= b <= s.len(),
        k == indent_len(s.subrange(a, b)),
    ensures
        trim_indent(s.subrange(a, b)) == s.subrange(a + k, b),
{
    crate::text::lemma_indent_len_bound(s.subrange(a, b));
    assert(s.subrange(a, b).subrange(k, b - a) == s.subrange(a + k, b));
}

fn line_kind_exec(f: &Frame, mask: Option<&[bool]>, i: usize) -> (r: LineKind)
    requires
        f.wf(),
        i < f.spans@.len(),
    ensures
        r == line_kind(f.env(), match mask {
            Some(m) => Some(m@),
            None => None,
        }, i as int),
{
    let ghost e = f.env();
    let (ls, le) = f.spans[i];
    let od = f.old[i];
    proof {
        assert(span_at(e, i as int) == (ls as int, le as int));
        assert(old_at(e, i as int) == od);
        assert(e.old[i as int] == indent_len(e.src.subrange(ls as int, le as int)));
    }
    match mask {
        Some(m) => {
            if !(i < m.len() && m[i]) {
                return LineKind::Keep;
            }
        },
        None => {},
    }
    if in_string_at_exec(f.forms, ls) {
        return LineKind::Keep;
    }
    let a = ls + od;
    proof {
        lemma_trim_subrange(f.src@, ls as int, le as int, od as int);
    }
    if a == le {
        return LineKind::Blank;
    }
    if f.comments[i] {
        return LineKind::Keep;
    }
    if prefix_within(f.src, a, le, ";;;") {
        return LineKind::Keep;
    }
    if prefix_within(f.src, a, le, ";") && !prefix_within(f.src, a, le, ";;") {
        return LineKind::Comment;
    }
    LineKind::Code
}


proof fn lemma_indents_len(e: Env, mask: Option<Seq<bool>>, k: int)
    requires
        k <= e.spans.len(),
    ensures
        indents(e, mask, k).len() == e.spans.len(),
    decreases k,
{
    if k > 0 {
        lemma_indents_len(e, mask, k - 1);
    }
}

pub open spec fn nl_view(nameless: Option<&Nameless>) -> Option<Seq<(Seq<char>, nat)>> {
    match nameless {
        Some(n) => Some(n@),
        None => None,
    }
}

pub open spec fn mask_view(mask: Option<&[bool]>) -> Option<Seq<bool>> {
    match mask {
        Some(m) => Some(m@),
        None => None,
    }
}

/// Per line of `cs` (its spans `spans`), whether it is comment-only under
/// `eng` (see [`comment_only`]).
fn comment_lines_exec(
    eng: Engine,
    source: &str,
    cs: &[char],
    nl: &Vec<usize>,
    spans: &Vec<(usize, usize)>,
    Ghost(e): Ghost<Env>,
) -> (r: Vec<bool>)
    requires
        e.eng == eng,
        e.src == cs@,
        cs@ == source@,
        nl@.len() == cs@.len() + 1,
        forall|k: int| 0 <= k <= cs@.len() ==> nl@[k] == nl_count(cs@, k),
        e.spans == Seq::new(spans@.len(), |i: int| (spans@[i].0 as int, spans@[i].1 as int)),
        forall|k: int| 0 <= k < spans@.len() ==> (#[trigger] spans@[k]).0 <= spans@[k].1 <= cs@.len(),
    ensures
        r@.len() == spans@.len(),
        forall|i: int| 0 <= i < spans@.len() ==> #[trigger] r@[i] == comment_only(e, i),
{
    let n = spans.len();
    let mut r: Vec<bool> = Vec::new();
    let mut i: usize = 0;
    while i < n
        invariant
            n == spans@.len(),
            i <= n,
            r@ == Seq::new(i as nat, |q: int| false),
        decreases n - i,
    {
        r.push(false);
        assert(r@ =~= Seq::new((i + 1) as nat, |q: int| false));
        i = i + 1;
    }
    match eng {
        Engine::Clojure(d) => {
            let lex = lx_lex(source, crate::reader::dialect_name(d));
            let toks = crate::parinfer::char_tokens(cs, &lex);
            let ghost tv = crate::parinfer::toks_of(e.src, d);
            assert(toks@ == tv);
            let mut j: usize = 0;
            while j < toks.len()
                invariant
                    n == spans@.len(),
                    r@.len() == n,
                    e.src == cs@,
                    e.eng == eng,
                    eng == Engine::Clojure(d),
                    toks@ == tv,
                    tv == crate::parinfer::toks_of(e.src, d),
                    crate::parinfer::toks_wf(cs@, toks@),
                    nl@.len() == cs@.len() + 1,
                    forall|k: int| 0 <= k <= cs@.len() ==> nl@[k] == nl_count(cs@, k),
                    e.spans == Seq::new(spans@.len(), |i: int| (spans@[i].0 as int, spans@[i].1 as int)),
                    forall|k: int| 0 <= k < spans@.len() ==> (#[trigger] spans@[k]).0 <= spans@[k].1 <= cs@.len(),
                    j <= toks@.len(),
                    forall|q: int|
                        0 <= q < n ==> #[trigger] r@[q] == exists|k: int|
                            0 <= k < j && (#[trigger] tv[k]).kind == LexKind::LineComment && line_at(e, tv[k].start as int)
                                == q && span_at(e, q).0 <= tv[k].start && all_ws(
                                e.src.subrange(span_at(e, q).0, tv[k].start as int),
                            ),
                decreases toks.len() - j,
            {
                let t = toks[j];
                assert(tv[j as int] == t);
                assert(t.start <= cs@.len());
                let ghost r0 = r@;
                match t.kind {
                    LexKind::LineComment => {
                        let l = nl[t.start];
                        if l < n {
                            let (a, _) = spans[l];
                            assert(span_at(e, l as int).0 == a);
                            if a <= t.start && crate::text::is_blank(cs, a, t.start) {
                                r.set(l, true);
                            }
                        }
                    },
                    _ => {},
                }
                assert forall|q: int| 0 <= q < n implies #[trigger] r@[q] == exists|k: int|
                    0 <= k < j + 1 && (#[trigger] tv[k]).kind == LexKind::LineComment && line_at(e, tv[k].start as int) == q
                        && span_at(e, q).0 <= tv[k].start && all_ws(e.src.subrange(span_at(e, q).0, tv[k].start as int)) by {
                    let cj = tv[j as int].kind == LexKind::LineComment && line_at(e, tv[j as int].start as int) == q
                        && span_at(e, q).0 <= tv[j as int].start && all_ws(
                        e.src.subrange(span_at(e, q).0, tv[j as int].start as int),
                    );
                    if cj {
                        assert(line_at(e, t.start as int) == nl@[t.start as int]);
                        assert(r@[q]);
                    } else {
                        if r@[q] != r0[q] {
                            assert(line_at(e, t.start as int) == nl@[t.start as int]);
                        }
                        assert(r@[q] == r0[q]);
                    }
                }
                j = j + 1;
            }
            assert forall|i: int| 0 <= i < n implies #[trigger] r@[i] == comment_only(e, i) by {
                assert(comment_only(e, i) == comment_line(e, d, i));
            }
        },
        _ => {},
    }
    r
}

/// Reindent `source`, read as `forms`, with the indent specs of `table`:
/// every line outside `mask` (when given), inside a string, or a `;;;`
/// comment is kept verbatim; a whitespace-only line is emptied; a lone-`;`
/// comment goes to `comment-column`; every other line gets the `eng`
/// engine's indent. Lines are joined with `\n`.
pub fn format_forms(
    eng: Engine,
    source: &str,
    forms: &[Node],
    table: &lispexp::indent::IndentTable,
    config: &FormatConfig,
    nameless: Option<&Nameless>,
    mask: Option<&[bool]>,
) -> (r: String)
    ensures
        r@ == formatted(
            eng,
            source@,
            forms@,
            indent_specs(*table),
            *config,
            nl_view(nameless),
            mask_view(mask),
        ),
{
    let cs = chars_of(source);
    let nl = line_numbers(cs.as_slice());
    let spans = line_table(cs.as_slice());
    let mut old: Vec<usize> = Vec::new();
    let mut i: usize = 0;
    while i < spans.len()
        invariant
            i <= spans@.len(),
            old@.len() == i,
            forall|k: int| 0 <= k < spans@.len() ==> (#[trigger] spans@[k]).0 <= spans@[k].1 <= cs@.len(),
            forall|k: int|
                0 <= k < i ==> old@[k] == indent_len(cs@.subrange((#[trigger] spans@[k]).0 as int, spans@[k].1 as int)),
            forall|k: int|
                0 <= k < i ==> (#[trigger] spans@[k]).0 + old@[k] <= spans@[k].1,
        decreases spans.len() - i,
    {
        let (a, b) = spans[i];
        let k = indent_len_of(cs.as_slice(), a, b);
        old.push(k);
        i = i + 1;
    }
    let mut saves: Vec<(usize, usize)> = Vec::new();
    match nameless {
        Some(n) => saves_range_exec(cs.as_slice(), n, forms, &mut saves),
        None => {},
    }
    let ghost e = env_of(eng, source@, forms@, indent_specs(*table), *config, nl_view(nameless));
    let eng = resolve_engine(eng, config);
    assert(e.spans =~= Seq::new(spans@.len(), |i: int| (spans@[i].0 as int, spans@[i].1 as int)));
    let comments = comment_lines_exec(eng, source, cs.as_slice(), &nl, &spans, Ghost(e));
    let f = Frame {
        eng,
        src: cs.as_slice(),
        nl: nl.as_slice(),
        spans: spans.as_slice(),
        old: old.as_slice(),
        saves: saves.as_slice(),
        table,
        cfg: *config,
        forms,
        comments: comments.as_slice(),
    };
    let ghost mk = mask_view(mask);
    proof {
        let fe = f.env();
        assert(fe.spans =~= e.spans);
        assert(fe.old =~= e.old);
        assert(fe.saves.len() == e.saves.len());
        assert forall|j: int| 0 <= j < fe.saves.len() implies fe.saves[j] == e.saves[j] by {
            assert(saves@[0 + j] == saves@[j]);
        }
        assert(fe.saves =~= e.saves);
        assert(fe == e);
        assert(f.wf());
    }
    let count = spans.len();
    let mut new: Vec<usize> = Vec::new();
    let mut k: usize = 0;
    while k < count
        invariant
            k <= count,
            new@ == Seq::new(k as nat, |j: int| 0usize),
        decreases count - k,
    {
        new.push(0);
        assert(new@ =~= Seq::new((k + 1) as nat, |j: int| 0usize));
        k = k + 1;
    }
    assert(new@ =~= indents(e, mk, 0));
    proof {
        lemma_indents_len(e, mk, count as int);
    }
    let mut out = String::new();
    let mut i: usize = 0;
    while i < count
        invariant
            f.wf(),
            f.env() == e,
            count == spans@.len() == e.spans.len() == old@.len(),
            f.src@ == cs@,
            f.spans@ == spans@,
            f.old@ == old@,
            f.cfg == *config,
            f.forms@ == forms@,
            mk == mask_view(mask),
            i <= count,
            new@ == indents(e, mk, i as int),
            new@.len() == count,
            out@ == join_lines(out_lines(e, mk).take(i as int)),
        decreases count - i,
    {
        let kind = line_kind_exec(&f, mask, i);
        let (ls, le) = spans[i];
        let od = old[i];
        assert(span_at(e, i as int) == (ls as int, le as int));
        let v = match kind {
            LineKind::Keep => od,
            LineKind::Blank => 0,
            LineKind::Comment => config.comment_column,
            LineKind::Code => code_indent_exec(&f, new.as_slice(), ls),
        };
        assert(v == new_indent(e, mk, new@, i as int));
        let ghost before = out@;
        if i > 0 {
            push_char(&mut out, '\n');
        }
        let ghost sep = out@;
        match kind {
            LineKind::Keep => push_range(&mut out, cs.as_slice(), ls, le),
            LineKind::Blank => {},
            _ => {
                push_render(&mut out, config, v);
                push_range(&mut out, cs.as_slice(), ls + od, le);
            },
        }
        proof {
            lemma_trim_subrange(cs@, ls as int, le as int, od as int);
            let ls_all = out_lines(e, mk);
            assert(ls_all[i as int] == out_line(e, mk, i as int));
            assert(out@ == sep + out_line(e, mk, i as int));
            let t = ls_all.take(i + 1);
            assert(t.drop_last() =~= ls_all.take(i as int));
            if i > 0 {
                assert(out@ =~= join_lines(ls_all.take(i as int)) + seq!['\n'] + t.last());
            } else {
                assert(out@ =~= t[0]);
            }
        }
        new.set(i, v);
        proof {
            lemma_indents_len(e, mk, i + 1);
        }
        i = i + 1;
    }
    assert(out_lines(e, mk).take(count as int) =~= out_lines(e, mk));
    out
}

/// Reindent whole Emacs Lisp `source`, returning the formatted text: the
/// source is read by `lispexp` (discarded forms kept), and the bundled
/// Emacs Lisp indent specs are merged with the file's own.
pub fn format_elisp(source: &str, config: &FormatConfig) -> (r: String)
    ensures
        exists|forms: Seq<Node>|
            crate::reader::reads_as(source@, crate::reader::dialect_name_spec(Dialect::EmacsLisp), true, forms)
                && r@ == formatted(
                Engine::Elisp,
                source@,
                forms,
                crate::indent_table::bundled_specs("emacs-lisp"@).union_prefer_right(
                    crate::indent_table::harvested_specs(source@),
                ),
                *config,
                None,
                None,
            ),
{
    let forms = read(source, Dialect::EmacsLisp, true);
    let table = elisp_table(source);
    format_forms(Engine::Elisp, source, forms.as_slice(), &table, config, None, None)
}

/// Like [`format_elisp`], but measuring columns as they display under
/// Nameless.
pub fn format_elisp_nameless(source: &str, config: &FormatConfig, nameless: &Nameless) -> (r: String)
    ensures
        exists|forms: Seq<Node>|
            crate::reader::reads_as(source@, crate::reader::dialect_name_spec(Dialect::EmacsLisp), true, forms)
                && r@ == formatted(
                Engine::Elisp,
                source@,
                forms,
                crate::indent_table::bundled_specs("emacs-lisp"@).union_prefer_right(
                    crate::indent_table::harvested_specs(source@),
                ),
                *config,
                Some(nameless@),
                None,
            ),
{
    let forms = read(source, Dialect::EmacsLisp, true);
    let table = elisp_table(source);
    format_forms(Engine::Elisp, source, forms.as_slice(), &table, config, Some(nameless), None)
}

/// The indent specs the Emacs Lisp engine reads for `source`: the bundled
/// Emacs Lisp table with the file's own `declare`/`put` specs over it.
pub open spec fn elisp_specs(source: Seq<char>) -> Map<Seq<char>, IndentRule> {
    crate::indent_table::bundled_specs("emacs-lisp"@).union_prefer_right(
        crate::indent_table::harvested_specs(source),
    )
}

/// Reindent `source` read as `dialect` with its engine: the Scheme engine
/// for the Scheme family, the Common Lisp engine for Common Lisp, the cljfmt
/// engine for Clojure and Phel, else the Emacs Lisp engine (the generic
/// engine for dialects without one of their own).
pub fn format(source: &str, config: &FormatConfig, dialect: Dialect) -> (r: String)
    ensures
        exists|forms: Seq<Node>|
            crate::reader::reads_as(source@, crate::reader::dialect_name_spec(dialect), true, forms)
                && r@ == formatted(engine_of(dialect), source@, forms, elisp_specs(source@), *config, None, None),
{
    let forms = read(source, dialect, true);
    let table = elisp_table(source);
    let r = format_forms(engine_for(dialect), source, forms.as_slice(), &table, config, None, None);
    assert(r@ == formatted(engine_of(dialect), source@, forms@, elisp_specs(source@), *config, None, None));
    r
}

// --- What a reindent keeps ------------------------------------------------------------

/// Leading indentation characters count one by one.
proof fn lemma_indent_len_prefix(p: Seq<char>, t: Seq<char>)
    requires
        forall|k: int| 0 <= k < p.len() ==> crate::text::is_ws(#[trigger] p[k]) && p[k] != '\u{0c}',
    ensures
        indent_len(p + t) == p.len() + indent_len(t),
    decreases p.len(),
{
    if p.len() > 0 {
        assert((p + t).drop_first() == p.drop_first() + t);
        lemma_indent_len_prefix(p.drop_first(), t);
    } else {
        assert(p + t == t);
    }
}

/// A rendered indent followed by trimmed text trims back to that text.
proof fn lemma_trim_rendered(cfg: FormatConfig, n: nat, x: Seq<char>)
    ensures
        trim_indent(render(cfg, n) + trim_indent(x)) == trim_indent(x),
{
    let r = render(cfg, n);
    let t = trim_indent(x);
    crate::text::lemma_indent_len_bound(x);
    assert forall|k: int| 0 <= k < r.len() implies crate::text::is_ws(#[trigger] r[k]) && r[k] != '\u{0c}' by {
        assert(r[k] == ' ' || r[k] == '\t');
    }
    lemma_indent_len_prefix(r, t);
    if t.len() > 0 {
        assert(t[0] == x[indent_len(x) as int]);
    }
    assert(indent_len(t) == 0);
    assert((r + t).subrange(r.len() as int, (r + t).len() as int) == t);
}

/// Reindenting changes only indentation. The output has one line per input
/// line; every output line, trimmed of its indentation, is the input line so
/// trimmed; a line outside the touched region or starting inside a string is
/// kept byte-identical; and the text is those lines joined with `\n`.
pub proof fn law_reindent_changes_only_indentation(
    eng: Engine,
    src: Seq<char>,
    forms: Seq<Node>,
    table: Map<Seq<char>, IndentRule>,
    cfg: FormatConfig,
    nl: Option<Seq<(Seq<char>, nat)>>,
    mask: Option<Seq<bool>>,
)
    ensures
        out_lines(env_of(eng, src, forms, table, cfg, nl), mask).len() == line_spans(src).len(),
        forall|i: int|
            0 <= i < line_spans(src).len() ==> trim_indent(
                #[trigger] out_lines(env_of(eng, src, forms, table, cfg, nl), mask)[i],
            ) == trim_indent(crate::text::line_content(src, i)),
        forall|i: int|
            0 <= i < line_spans(src).len() && mask is Some && !(i < mask->0.len() && mask->0[i])
                ==> #[trigger] out_lines(env_of(eng, src, forms, table, cfg, nl), mask)[i]
                == crate::text::line_content(src, i),
        forall|i: int|
            0 <= i < line_spans(src).len() && in_string_at(forms, line_spans(src)[i].0)
                ==> #[trigger] out_lines(env_of(eng, src, forms, table, cfg, nl), mask)[i]
                == crate::text::line_content(src, i),
        formatted(eng, src, forms, table, cfg, nl, mask) == join_lines(
            out_lines(env_of(eng, src, forms, table, cfg, nl), mask),
        ),
{
    let e = env_of(eng, src, forms, table, cfg, nl);
    assert forall|i: int| 0 <= i < line_spans(src).len() implies trim_indent(
        #[trigger] out_lines(e, mask)[i],
    ) == trim_indent(crate::text::line_content(src, i)) by {
        assert(line_text(e, i) == crate::text::line_content(src, i));
        match line_kind(e, mask, i) {
            LineKind::Keep => {},
            LineKind::Blank => {
                assert(trim_indent(Seq::<char>::empty()) =~= Seq::<char>::empty());
                assert(trim_indent(line_text(e, i)).len() == 0);
            },
            _ => {
                lemma_trim_rendered(
                    e.cfg,
                    new_indent(e, mask, indents(e, mask, i), i) as nat,
                    line_text(e, i),
                );
            },
        }
    }
    assert forall|i: int|
        0 <= i < line_spans(src).len() && mask is Some && !(i < mask->0.len() && mask->0[i])
            implies #[trigger] out_lines(e, mask)[i] == crate::text::line_content(src, i) by {
        assert(line_kind(e, mask, i) == LineKind::Keep);
    }
    assert forall|i: int|
        0 <= i < line_spans(src).len() && in_string_at(forms, line_spans(src)[i].0)
            implies #[trigger] out_lines(e, mask)[i] == crate::text::line_content(src, i) by {
        assert(line_kind(e, mask, i) == LineKind::Keep);
    }
}

/// Lines that hold no `\n`, joined with `\n`, split back into themselves.
pub proof fn lemma_nl_split_join(ls: Seq<Seq<char>>)
    requires
        ls.len() >= 1,
        forall|q: int, m: int| 0 <= q < ls.len() && 0 <= m < ls[q].len() ==> #[trigger] ls[q][m] != '\n',
    ensures
        crate::text::nl_split(join_lines(ls)) == ls,
    decreases ls.len(),
{
    if ls.len() == 1 {
        let s = ls[0];
        crate::text::lemma_next_nl_is(s, 0, s.len() as int);
        assert(s.subrange(0, s.len() as int) == s);
        assert(crate::text::nl_split(s) == seq![s]);
        assert(ls == seq![s]);
    } else {
        let init = ls.drop_last();
        lemma_nl_split_join(init);
        let last = ls.last();
        assert forall|m: int| 0 <= m < last.len() implies last[m] != '\n' by {
            assert(ls[ls.len() - 1][m] != '\n');
        }
        crate::text::lemma_nl_split_append(join_lines(init), last, 0);
        assert(init.push(last) == ls);
    }
}

/// No output line of a reindent holds a `\n`.
proof fn lemma_out_line_no_nl(
    eng: Engine,
    src: Seq<char>,
    forms: Seq<Node>,
    table: Map<Seq<char>, IndentRule>,
    cfg: FormatConfig,
    nl: Option<Seq<(Seq<char>, nat)>>,
    mask: Option<Seq<bool>>,
    i: int,
)
    requires
        0 <= i < line_spans(src).len(),
    ensures
        forall|m: int|
            0 <= m < out_lines(env_of(eng, src, forms, table, cfg, nl), mask)[i].len() ==> #[trigger] out_lines(
                env_of(eng, src, forms, table, cfg, nl),
                mask,
            )[i][m] != '\n',
{
    let e = env_of(eng, src, forms, table, cfg, nl);
    law_reindent_changes_only_indentation(eng, src, forms, table, cfg, nl, mask);
    assert(line_text(e, i) == crate::text::line_content(src, i));
    crate::text::lemma_line_content_no_nl(src, i);
    let lt = line_text(e, i);
    crate::text::lemma_indent_len_bound(lt);
    let o = out_lines(e, mask)[i];
    assert(o == out_line(e, mask, i));
    match line_kind(e, mask, i) {
        LineKind::Keep => {},
        LineKind::Blank => {},
        _ => {
            let r = render(e.cfg, new_indent(e, mask, indents(e, mask, i), i) as nat);
            let t = trim_indent(lt);
            assert forall|m: int| 0 <= m < o.len() implies o[m] != '\n' by {
                if m < r.len() {
                    assert(o[m] == r[m]);
                    assert(r[m] == ' ' || r[m] == '\t');
                } else {
                    assert(o[m] == t[m - r.len()]);
                    assert(t[m - r.len()] == lt[m - r.len() + indent_len(lt)]);
                }
            }
        },
    }
}

/// Reindenting changes only indentation, read on the output text: it has
/// exactly as many `\n`s as the source, hence as many lines; each,
/// trimmed of its indentation, is the source line so trimmed; and a line
/// outside the touched region or starting inside a string is the source line
/// unchanged.
pub proof fn law_formatted_text_changes_only_indentation(
    eng: Engine,
    src: Seq<char>,
    forms: Seq<Node>,
    table: Map<Seq<char>, IndentRule>,
    cfg: FormatConfig,
    nl: Option<Seq<(Seq<char>, nat)>>,
    mask: Option<Seq<bool>>,
)
    ensures
        nl_count(formatted(eng, src, forms, table, cfg, nl, mask), formatted(eng, src, forms, table, cfg, nl, mask).len() as int)
            == nl_count(src, src.len() as int),
        crate::text::nl_split(formatted(eng, src, forms, table, cfg, nl, mask)).len() == line_spans(src).len(),
        forall|i: int|
            0 <= i < line_spans(src).len() ==> trim_indent(
                #[trigger] crate::text::nl_split(formatted(eng, src, forms, table, cfg, nl, mask))[i],
            ) == trim_indent(crate::text::line_content(src, i)),
        forall|i: int|
            0 <= i < line_spans(src).len() && mask is Some && !(i < mask->0.len() && mask->0[i])
                ==> #[trigger] crate::text::nl_split(formatted(eng, src, forms, table, cfg, nl, mask))[i]
                == crate::text::line_content(src, i),
        forall|i: int|
            0 <= i < line_spans(src).len() && in_string_at(forms, line_spans(src)[i].0)
                ==> #[trigger] crate::text::nl_split(formatted(eng, src, forms, table, cfg, nl, mask))[i]
                == crate::text::line_content(src, i),
{
    let e = env_of(eng, src, forms, table, cfg, nl);
    let ls = out_lines(e, mask);
    law_reindent_changes_only_indentation(eng, src, forms, table, cfg, nl, mask);
    crate::text::lemma_line_spans_from(src, 0);
    assert forall|q: int, m: int| 0 <= q < ls.len() && 0 <= m < ls[q].len() implies #[trigger] ls[q][m] != '\n' by {
        lemma_out_line_no_nl(eng, src, forms, table, cfg, nl, mask, q);
    }
    lemma_nl_split_join(ls);
    let out = formatted(eng, src, forms, table, cfg, nl, mask);
    crate::text::lemma_nl_split_count(out, 0);
    crate::text::lemma_nl_split_count(src, 0);
}

// --- Touched-region reindent -------------------------------------------------------

/// Which lines a touched-region reindent rewrites: the `expand` byte ranges
/// pull in the whole enclosing top-level form (auto-format on edit), while the
/// `exact` byte ranges rewrite only the lines they cover (`format` of one,
/// possibly nested, form). Everything else stays byte-identical.
#[derive(Clone, Copy)]
pub struct Touched<'a> {
    pub expand: &'a [std::ops::Range<usize>],
    pub exact: &'a [std::ops::Range<usize>],
}

/// The byte offset at which character `i` of `cs` starts (saturating).
pub open spec fn byte_of(cs: Seq<char>, i: int) -> int {
    let k = if i < 0 {
        0
    } else if i > cs.len() {
        cs.len() as int
    } else {
        i
    };
    sat(crate::text::utf8_len_seq(cs.take(k)) as int)
}

/// The 0-based line of byte offset `b`: the `\n`s before it (offsets past
/// the end count them all).
pub open spec fn line_of_byte(cs: Seq<char>, b: int) -> int {
    nl_count(cs, crate::reader::chars_before(cs, b)) as int
}

/// Whether line `l` lies among the lines of bytes `from..to`.
pub open spec fn covers(cs: Seq<char>, l: int, from: int, to: int) -> bool {
    line_of_byte(cs, from) <= l && l <= line_of_byte(
        cs,
        if to > 0 {
            to - 1
        } else {
            0
        },
    )
}

/// Whether an `expand` range overlaps top-level form `d`.
pub open spec fn form_touched(cs: Seq<char>, d: Node, expand: Seq<std::ops::Range<usize>>) -> bool {
    exists|k: int|
        0 <= k < expand.len() && #[trigger] expand[k].start < byte_of(cs, d.end as int) && byte_of(
            cs,
            d.start as int,
        ) <= expand[k].end
}

/// Whether one of the byte ranges `rs` covers line `l`.
pub open spec fn covered_by(cs: Seq<char>, l: int, rs: Seq<std::ops::Range<usize>>) -> bool
    decreases rs.len(),
{
    rs.len() > 0 && (covered_by(cs, l, rs.drop_last()) || covers(
        cs,
        l,
        rs.last().start as int,
        rs.last().end as int,
    ))
}

/// The lines a touched-region reindent rewrites: those of every top-level
/// form an `expand` range overlaps, and those an `exact` range covers.
pub open spec fn touched_mask(
    cs: Seq<char>,
    forms: Seq<Node>,
    expand: Seq<std::ops::Range<usize>>,
    exact: Seq<std::ops::Range<usize>>,
) -> Seq<bool> {
    Seq::new(
        line_spans(cs).len(),
        |l: int|
            (exists|d: int|
                0 <= d < forms.len() && form_touched(cs, #[trigger] forms[d], expand) && covers(
                    cs,
                    l,
                    byte_of(cs, forms[d].start as int),
                    byte_of(cs, forms[d].end as int),
                )) || covered_by(cs, l, exact),
    )
}

/// The byte offset each character starts at, and the total at the end
/// (saturating).
pub(crate) fn byte_table(cs: &[char]) -> (t: Vec<usize>)
    ensures
        t@.len() == cs@.len() + 1,
        forall|i: int| 0 <= i <= cs@.len() ==> t@[i] == byte_of(cs@, i),
{
    let mut t: Vec<usize> = Vec::new();
    t.push(0);
    assert(cs@.take(0) == Seq::<char>::empty());
    let mut n: usize = 0;
    let mut i: usize = 0;
    while i < cs.len()
        invariant
            i <= cs@.len(),
            t@.len() == i + 1,
            n == byte_of(cs@, i as int),
            forall|q: int| 0 <= q <= i ==> t@[q] == byte_of(cs@, q),
        decreases cs.len() - i,
    {
        assert(cs@.take(i + 1).drop_last() == cs@.take(i as int));
        let w = crate::text::char_utf8_len(cs[i]);
        n = n.saturating_add(w);
        t.push(n);
        i = i + 1;
    }
    t
}

/// Mark the lines of bytes `from..to`.
fn mark_lines(mask: &mut Vec<bool>, cs: &[char], map: &Vec<usize>, nl: &Vec<usize>, from: usize, to: usize)
    requires
        map@ == crate::reader::byte_char_map(cs@),
        nl@.len() == cs@.len() + 1,
        forall|k: int| 0 <= k <= cs@.len() ==> nl@[k] == nl_count(cs@, k),
    ensures
        final(mask)@.len() == old(mask)@.len(),
        forall|l: int|
            0 <= l < old(mask)@.len() ==> (final(mask)@[l] == (old(mask)@[l] || covers(cs@, l, from as int, to as int))),
{
    let c0 = crate::reader::chars_before_exec(cs, map, from);
    let t = if to > 0 {
        to - 1
    } else {
        0
    };
    let c1 = crate::reader::chars_before_exec(cs, map, t);
    let l0 = nl[c0];
    let l1 = nl[c1];
    let ghost before = mask@;
    let mut l = l0;
    while l <= l1 && l < mask.len()
        invariant
            mask@.len() == before.len(),
            l0 <= l,
            forall|q: int| 0 <= q < before.len() && !(l0 <= q < l) ==> mask@[q] == before[q],
            forall|q: int| 0 <= q < before.len() && l0 <= q < l ==> mask@[q] && q <= l1,
        decreases mask@.len() - l,
    {
        mask.set(l, true);
        l = l + 1;
    }
    assert forall|q: int| 0 <= q < before.len() implies (mask@[q] == (before[q] || covers(cs@, q, from as int, to as int))) by {
        if covers(cs@, q, from as int, to as int) {
            assert(l0 <= q <= l1);
        }
    }
}

/// The lines a touched-region reindent of `source` (read as `forms`)
/// rewrites.
fn touched_line_mask(cs: &[char], forms: &[Node], touched: Touched) -> (mask: Vec<bool>)
    ensures
        mask@ == touched_mask(cs@, forms@, touched.expand@, touched.exact@),
{
    let map = crate::reader::byte_to_char_map(cs);
    let nl = line_numbers(cs);
    let bt = byte_table(cs);
    let count = line_table(cs).len();
    let mut mask: Vec<bool> = Vec::new();
    let mut q: usize = 0;
    while q < count
        invariant
            q <= count,
            mask@.len() == q,
            forall|l: int| 0 <= l < q ==> !mask@[l],
        decreases count - q,
    {
        mask.push(false);
        q = q + 1;
    }
    let ghost want = touched_mask(cs@, forms@, touched.expand@, touched.exact@);
    let mut d: usize = 0;
    while d < forms.len()
        invariant
            map@ == crate::reader::byte_char_map(cs@),
            nl@.len() == cs@.len() + 1,
            forall|k: int| 0 <= k <= cs@.len() ==> nl@[k] == nl_count(cs@, k),
            bt@.len() == cs@.len() + 1,
            forall|i: int| 0 <= i <= cs@.len() ==> bt@[i] == byte_of(cs@, i),
            mask@.len() == count == line_spans(cs@).len(),
            d <= forms@.len(),
            forall|l: int|
                0 <= l < count ==> (mask@[l] == exists|e: int|
                    0 <= e < d && form_touched(cs@, #[trigger] forms@[e], touched.expand@) && covers(
                        cs@,
                        l,
                        byte_of(cs@, forms@[e].start as int),
                        byte_of(cs@, forms@[e].end as int),
                    )),
        decreases forms.len() - d,
    {
        let n = cs.len();
        let fs = bt[if forms[d].start <= n { forms[d].start } else { n }];
        let fe = bt[if forms[d].end <= n { forms[d].end } else { n }];
        let mut hit = false;
        let mut k: usize = 0;
        while k < touched.expand.len()
            invariant
                k <= touched.expand@.len(),
                hit == exists|j: int|
                    0 <= j < k && #[trigger] touched.expand@[j].start < fe && fs <= touched.expand@[j].end,
            decreases touched.expand.len() - k,
        {
            if touched.expand[k].start < fe && fs <= touched.expand[k].end {
                hit = true;
            }
            k = k + 1;
        }
        assert(fs == byte_of(cs@, forms@[d as int].start as int));
        assert(fe == byte_of(cs@, forms@[d as int].end as int));
        assert(hit == form_touched(cs@, forms@[d as int], touched.expand@));
        let ghost before = mask@;
        if hit {
            mark_lines(&mut mask, cs, &map, &nl, fs, fe);
        }
        proof {
            assert forall|l: int| 0 <= l < count implies (mask@[l] == exists|e: int|
                0 <= e < d + 1 && form_touched(cs@, #[trigger] forms@[e], touched.expand@) && covers(
                    cs@,
                    l,
                    byte_of(cs@, forms@[e].start as int),
                    byte_of(cs@, forms@[e].end as int),
                )) by {
                if exists|e: int|
                    0 <= e < d + 1 && form_touched(cs@, #[trigger] forms@[e], touched.expand@) && covers(
                        cs@,
                        l,
                        byte_of(cs@, forms@[e].start as int),
                        byte_of(cs@, forms@[e].end as int),
                    ) {
                    let e = choose|e: int|
                        0 <= e < d + 1 && form_touched(cs@, #[trigger] forms@[e], touched.expand@) && covers(
                            cs@,
                            l,
                            byte_of(cs@, forms@[e].start as int),
                            byte_of(cs@, forms@[e].end as int),
                        );
                    if e < d {
                        assert(before[l]);
                    }
                }
            }
        }
        d = d + 1;
    }
    let ghost after_forms = mask@;
    let mut k: usize = 0;
    while k < touched.exact.len()
        invariant
            map@ == crate::reader::byte_char_map(cs@),
            nl@.len() == cs@.len() + 1,
            forall|q: int| 0 <= q <= cs@.len() ==> nl@[q] == nl_count(cs@, q),
            mask@.len() == count == line_spans(cs@).len(),
            after_forms.len() == count,
            forall|l: int|
                0 <= l < count ==> (after_forms[l] == exists|e: int|
                    0 <= e < forms@.len() && form_touched(cs@, #[trigger] forms@[e], touched.expand@) && covers(
                        cs@,
                        l,
                        byte_of(cs@, forms@[e].start as int),
                        byte_of(cs@, forms@[e].end as int),
                    )),
            want == touched_mask(cs@, forms@, touched.expand@, touched.exact@),
            k <= touched.exact@.len(),
            forall|l: int|
                0 <= l < count ==> (#[trigger] mask@[l] == (after_forms[l] || covered_by(cs@, l, touched.exact@.take(k as int)))),
        decreases touched.exact.len() - k,
    {
        let ghost before = mask@;
        mark_lines(&mut mask, cs, &map, &nl, touched.exact[k].start, touched.exact[k].end);
        proof {
            let t = touched.exact@.take(k + 1);
            assert(t.drop_last() == touched.exact@.take(k as int));
            assert(t.last() == touched.exact@[k as int]);
            assert forall|l: int| 0 <= l < count implies mask@[l] == (after_forms[l] || covered_by(cs@, l, t)) by {
                assert(mask@[l] == (before[l] || covers(cs@, l, touched.exact@[k as int].start as int, touched.exact@[k as int].end as int)));
                assert(before[l] == (after_forms[l] || covered_by(cs@, l, touched.exact@.take(k as int))));
                assert(covered_by(cs@, l, t) == (covered_by(cs@, l, touched.exact@.take(k as int)) || covers(cs@, l, t.last().start as int, t.last().end as int)));
            }
        }
        k = k + 1;
    }
    assert(touched.exact@.take(k as int) == touched.exact@);
    assert forall|l: int| 0 <= l < count implies mask@[l] == want[l] by {}
    assert(mask@ =~= want);
    mask
}

/// The general touched-region reindent of `source` read as `dialect`, with
/// the dialect's engine, optionally measuring columns under Nameless so an
/// edit to a Nameless file keeps its composed-prefix alignment.
pub fn reindent(
    source: &str,
    config: &FormatConfig,
    dialect: Dialect,
    nameless: Option<&Nameless>,
    touched: Touched,
) -> (r: String)
    ensures
        exists|forms: Seq<Node>|
            crate::reader::reads_as(source@, crate::reader::dialect_name_spec(dialect), true, forms)
                && r@ == formatted(
                engine_of(dialect),
                source@,
                forms,
                elisp_specs(source@),
                *config,
                nl_view(nameless),
                Some(#[trigger] touched_mask(source@, forms, touched.expand@, touched.exact@)),
            ),
{
    let cs = chars_of(source);
    let forms = read(source, dialect, true);
    let table = elisp_table(source);
    let mask = touched_line_mask(cs.as_slice(), forms.as_slice(), touched);
    let r = format_forms(engine_for(dialect), source, forms.as_slice(), &table, config, nameless, Some(mask.as_slice()));
    assert(r@ == formatted(
        engine_of(dialect),
        source@,
        forms@,
        elisp_specs(source@),
        *config,
        nl_view(nameless),
        Some(touched_mask(source@, forms@, touched.expand@, touched.exact@)),
    ));
    r
}

/// Auto-format reindent: reindent the whole top-level form(s) overlapping
/// any of `ranges`. Used for the touched region of a Structural edit.
pub fn reindent_range(source: &str, config: &FormatConfig, dialect: Dialect, ranges: &[std::ops::Range<usize>]) -> (r: String)
    ensures
        exists|forms: Seq<Node>|
            crate::reader::reads_as(source@, crate::reader::dialect_name_spec(dialect), true, forms)
                && r@ == formatted(
                engine_of(dialect),
                source@,
                forms,
                elisp_specs(source@),
                *config,
                None,
                Some(#[trigger] touched_mask(source@, forms, ranges@, Seq::empty())),
            ),
{
    let none: [std::ops::Range<usize>; 0] = [];
    let r = reindent(source, config, dialect, None, Touched { expand: ranges, exact: &none });
    assert(none@ =~= Seq::<std::ops::Range<usize>>::empty());
    r
}

/// Block reindent: reindent exactly the lines of `block` (one form, possibly
/// nested), in full file context.
pub fn reindent_block(source: &str, config: &FormatConfig, dialect: Dialect, block: std::ops::Range<usize>) -> (r: String)
    ensures
        exists|forms: Seq<Node>|
            crate::reader::reads_as(source@, crate::reader::dialect_name_spec(dialect), true, forms)
                && r@ == formatted(
                engine_of(dialect),
                source@,
                forms,
                elisp_specs(source@),
                *config,
                None,
                Some(#[trigger] touched_mask(source@, forms, Seq::empty(), seq![block])),
            ),
{
    let none: [std::ops::Range<usize>; 0] = [];
    let one = [block];
    let r = reindent(source, config, dialect, None, Touched { expand: &none, exact: &one });
    assert(none@ =~= Seq::<std::ops::Range<usize>>::empty());
    assert(one@ =~= seq![block]);
    r
}


/// The heads that Emacs's `scheme.el` gives `scheme-indent-function` 1 in
/// a default `scheme-mode` buffer (its core, DSSSL and MIT blocks).
pub open spec fn scheme_el_indent_one(h: Seq<char>) -> bool {
    h == "and-let*"@
        || h == "call-with-input-file"@
        || h == "call-with-output-file"@
        || h == "call-with-port"@
        || h == "call-with-values"@
        || h == "case"@
        || h == "check-case"@
        || h == "define-library"@
        || h == "define-record-type"@
        || h == "define-values"@
        || h == "eval-when"@
        || h == "guard"@
        || h == "lambda"@
        || h == "lambda-checked"@
        || h == "let*"@
        || h == "let*-values"@
        || h == "let-syntax"@
        || h == "let-values"@
        || h == "letrec"@
        || h == "letrec*"@
        || h == "letrec-syntax"@
        || h == "library"@
        || h == "match"@
        || h == "match-let*"@
        || h == "match-letrec"@
        || h == "opt-lambda"@
        || h == "opt*-lambda"@
        || h == "parameterize"@
        || h == "test-group"@
        || h == "test-group-with-cleanup"@
        || h == "unless"@
        || h == "when"@
        || h == "with-input-from-file"@
        || h == "with-input-from-port"@
        || h == "with-output-to-file"@
        || h == "with-output-to-port"@
        || h == "with-syntax"@
        || h == "λ"@
        || h == "element"@
        || h == "make"@
        || h == "mode"@
        || h == "root"@
        || h == "style"@
        || h == "with-mode"@
        || h == "access-components"@
        || h == "assignment-components"@
        || h == "combination-components"@
        || h == "comment-components"@
        || h == "conditional-components"@
        || h == "declaration-components"@
        || h == "definition-components"@
        || h == "delay-components"@
        || h == "disjunction-components"@
        || h == "fluid-let"@
        || h == "in-package"@
        || h == "in-package-components"@
        || h == "lambda-components"@
        || h == "lambda-components*"@
        || h == "lambda-components**"@
        || h == "list-search-negative"@
        || h == "list-search-positive"@
        || h == "list-transform-negative"@
        || h == "list-transform-positive"@
        || h == "local-declare"@
        || h == "macro"@
        || h == "named-lambda"@
        || h == "open-block-components"@
        || h == "pathname-components"@
        || h == "procedure-components"@
        || h == "sequence-components"@
        || h == "unassigned?-components"@
        || h == "unbound?-components"@
        || h == "using-syntax"@
        || h == "variable-components"@
        || h == "with-input-from-string"@
        || h == "with-values"@
}

proof fn lemma_scheme_one_rule(h: Seq<char>)
    requires
        scheme_el_indent_one(h),
    ensures
        scheme_rule(h) == Some(SchemeRule::Number(1)),
{
    reveal_strlit("let");
    assert("let"@.len() == 3);
    reveal_strlit("match-let");
    assert("match-let"@.len() == 9);
    reveal_strlit("syntax-rules");
    assert("syntax-rules"@.len() == 12);
    reveal_strlit("begin");
    assert("begin"@.len() == 5);
    reveal_strlit("delay");
    assert("delay"@.len() == 5);
    reveal_strlit("make-environment");
    assert("make-environment"@.len() == 16);
    reveal_strlit("match-lambda");
    assert("match-lambda"@.len() == 12);
    reveal_strlit("match-lambda*");
    assert("match-lambda*"@.len() == 13);
    reveal_strlit("sequence");
    assert("sequence"@.len() == 8);
    reveal_strlit("with-output-to-string");
    assert("with-output-to-string"@.len() == 21);
    if h == "and-let*"@ {
        reveal_strlit("and-let*");
        assert("and-let*"@.len() == 8);
        assert("and-let*"@[0] == 'a');
        assert("sequence"@[0] == 's');
    } else if h == "call-with-input-file"@ {
        reveal_strlit("call-with-input-file");
        assert("call-with-input-file"@.len() == 20);
    } else if h == "call-with-output-file"@ {
        reveal_strlit("call-with-output-file");
        assert("call-with-output-file"@.len() == 21);
        assert("call-with-output-file"@[0] == 'c');
        assert("with-output-to-string"@[0] == 'w');
    } else if h == "call-with-port"@ {
        reveal_strlit("call-with-port");
        assert("call-with-port"@.len() == 14);
    } else if h == "call-with-values"@ {
        reveal_strlit("call-with-values");
        assert("call-with-values"@.len() == 16);
        assert("call-with-values"@[0] == 'c');
        assert("make-environment"@[0] == 'm');
    } else if h == "case"@ {
        reveal_strlit("case");
        assert("case"@.len() == 4);
    } else if h == "check-case"@ {
        reveal_strlit("check-case");
        assert("check-case"@.len() == 10);
    } else if h == "define-library"@ {
        reveal_strlit("define-library");
        assert("define-library"@.len() == 14);
    } else if h == "define-record-type"@ {
        reveal_strlit("define-record-type");
        assert("define-record-type"@.len() == 18);
    } else if h == "define-values"@ {
        reveal_strlit("define-values");
        assert("define-values"@.len() == 13);
        assert("define-values"@[0] == 'd');
        assert("match-lambda*"@[0] == 'm');
    } else if h == "eval-when"@ {
        reveal_strlit("eval-when");
        assert("eval-when"@.len() == 9);
        assert("eval-when"@[0] == 'e');
        assert("match-let"@[0] == 'm');
    } else if h == "guard"@ {
        reveal_strlit("guard");
        assert("guard"@.len() == 5);
        assert("guard"@[0] == 'g');
        assert("begin"@[0] == 'b');
        assert("guard"@[0] == 'g');
        assert("delay"@[0] == 'd');
    } else if h == "lambda"@ {
        reveal_strlit("lambda");
        assert("lambda"@.len() == 6);
    } else if h == "lambda-checked"@ {
        reveal_strlit("lambda-checked");
        assert("lambda-checked"@.len() == 14);
    } else if h == "let*"@ {
        reveal_strlit("let*");
        assert("let*"@.len() == 4);
    } else if h == "let*-values"@ {
        reveal_strlit("let*-values");
        assert("let*-values"@.len() == 11);
    } else if h == "let-syntax"@ {
        reveal_strlit("let-syntax");
        assert("let-syntax"@.len() == 10);
    } else if h == "let-values"@ {
        reveal_strlit("let-values");
        assert("let-values"@.len() == 10);
    } else if h == "letrec"@ {
        reveal_strlit("letrec");
        assert("letrec"@.len() == 6);
    } else if h == "letrec*"@ {
        reveal_strlit("letrec*");
        assert("letrec*"@.len() == 7);
    } else if h == "letrec-syntax"@ {
        reveal_strlit("letrec-syntax");
        assert("letrec-syntax"@.len() == 13);
        assert("letrec-syntax"@[0] == 'l');
        assert("match-lambda*"@[0] == 'm');
    } else if h == "library"@ {
        reveal_strlit("library");
        assert("library"@.len() == 7);
    } else if h == "match"@ {
        reveal_strlit("match");
        assert("match"@.len() == 5);
        assert("match"@[0] == 'm');
        assert("begin"@[0] == 'b');
        assert("match"@[0] == 'm');
        assert("delay"@[0] == 'd');
    } else if h == "match-let*"@ {
        reveal_strlit("match-let*");
        assert("match-let*"@.len() == 10);
    } else if h == "match-letrec"@ {
        reveal_strlit("match-letrec");
        assert("match-letrec"@.len() == 12);
        assert("match-letrec"@[0] == 'm');
        assert("syntax-rules"@[0] == 's');
        assert("match-letrec"@[7] == 'e');
        assert("match-lambda"@[7] == 'a');
    } else if h == "opt-lambda"@ {
        reveal_strlit("opt-lambda");
        assert("opt-lambda"@.len() == 10);
    } else if h == "opt*-lambda"@ {
        reveal_strlit("opt*-lambda");
        assert("opt*-lambda"@.len() == 11);
    } else if h == "parameterize"@ {
        reveal_strlit("parameterize");
        assert("parameterize"@.len() == 12);
        assert("parameterize"@[0] == 'p');
        assert("syntax-rules"@[0] == 's');
        assert("parameterize"@[0] == 'p');
        assert("match-lambda"@[0] == 'm');
    } else if h == "test-group"@ {
        reveal_strlit("test-group");
        assert("test-group"@.len() == 10);
    } else if h == "test-group-with-cleanup"@ {
        reveal_strlit("test-group-with-cleanup");
        assert("test-group-with-cleanup"@.len() == 23);
    } else if h == "unless"@ {
        reveal_strlit("unless");
        assert("unless"@.len() == 6);
    } else if h == "when"@ {
        reveal_strlit("when");
        assert("when"@.len() == 4);
    } else if h == "with-input-from-file"@ {
        reveal_strlit("with-input-from-file");
        assert("with-input-from-file"@.len() == 20);
    } else if h == "with-input-from-port"@ {
        reveal_strlit("with-input-from-port");
        assert("with-input-from-port"@.len() == 20);
    } else if h == "with-output-to-file"@ {
        reveal_strlit("with-output-to-file");
        assert("with-output-to-file"@.len() == 19);
    } else if h == "with-output-to-port"@ {
        reveal_strlit("with-output-to-port");
        assert("with-output-to-port"@.len() == 19);
    } else if h == "with-syntax"@ {
        reveal_strlit("with-syntax");
        assert("with-syntax"@.len() == 11);
    } else if h == "λ"@ {
        reveal_strlit("λ");
        assert("λ"@.len() == 1);
    } else if h == "element"@ {
        reveal_strlit("element");
        assert("element"@.len() == 7);
    } else if h == "make"@ {
        reveal_strlit("make");
        assert("make"@.len() == 4);
    } else if h == "mode"@ {
        reveal_strlit("mode");
        assert("mode"@.len() == 4);
    } else if h == "root"@ {
        reveal_strlit("root");
        assert("root"@.len() == 4);
    } else if h == "style"@ {
        reveal_strlit("style");
        assert("style"@.len() == 5);
        assert("style"@[0] == 's');
        assert("begin"@[0] == 'b');
        assert("style"@[0] == 's');
        assert("delay"@[0] == 'd');
    } else if h == "with-mode"@ {
        reveal_strlit("with-mode");
        assert("with-mode"@.len() == 9);
        assert("with-mode"@[0] == 'w');
        assert("match-let"@[0] == 'm');
    } else if h == "access-components"@ {
        reveal_strlit("access-components");
        assert("access-components"@.len() == 17);
    } else if h == "assignment-components"@ {
        reveal_strlit("assignment-components");
        assert("assignment-components"@.len() == 21);
        assert("assignment-components"@[0] == 'a');
        assert("with-output-to-string"@[0] == 'w');
    } else if h == "combination-components"@ {
        reveal_strlit("combination-components");
        assert("combination-components"@.len() == 22);
    } else if h == "comment-components"@ {
        reveal_strlit("comment-components");
        assert("comment-components"@.len() == 18);
    } else if h == "conditional-components"@ {
        reveal_strlit("conditional-components");
        assert("conditional-components"@.len() == 22);
    } else if h == "declaration-components"@ {
        reveal_strlit("declaration-components");
        assert("declaration-components"@.len() == 22);
    } else if h == "definition-components"@ {
        reveal_strlit("definition-components");
        assert("definition-components"@.len() == 21);
        assert("definition-components"@[0] == 'd');
        assert("with-output-to-string"@[0] == 'w');
    } else if h == "delay-components"@ {
        reveal_strlit("delay-components");
        assert("delay-components"@.len() == 16);
        assert("delay-components"@[0] == 'd');
        assert("make-environment"@[0] == 'm');
    } else if h == "disjunction-components"@ {
        reveal_strlit("disjunction-components");
        assert("disjunction-components"@.len() == 22);
    } else if h == "fluid-let"@ {
        reveal_strlit("fluid-let");
        assert("fluid-let"@.len() == 9);
        assert("fluid-let"@[0] == 'f');
        assert("match-let"@[0] == 'm');
    } else if h == "in-package"@ {
        reveal_strlit("in-package");
        assert("in-package"@.len() == 10);
    } else if h == "in-package-components"@ {
        reveal_strlit("in-package-components");
        assert("in-package-components"@.len() == 21);
        assert("in-package-components"@[0] == 'i');
        assert("with-output-to-string"@[0] == 'w');
    } else if h == "lambda-components"@ {
        reveal_strlit("lambda-components");
        assert("lambda-components"@.len() == 17);
    } else if h == "lambda-components*"@ {
        reveal_strlit("lambda-components*");
        assert("lambda-components*"@.len() == 18);
    } else if h == "lambda-components**"@ {
        reveal_strlit("lambda-components**");
        assert("lambda-components**"@.len() == 19);
    } else if h == "list-search-negative"@ {
        reveal_strlit("list-search-negative");
        assert("list-search-negative"@.len() == 20);
    } else if h == "list-search-positive"@ {
        reveal_strlit("list-search-positive");
        assert("list-search-positive"@.len() == 20);
    } else if h == "list-transform-negative"@ {
        reveal_strlit("list-transform-negative");
        assert("list-transform-negative"@.len() == 23);
    } else if h == "list-transform-positive"@ {
        reveal_strlit("list-transform-positive");
        assert("list-transform-positive"@.len() == 23);
    } else if h == "local-declare"@ {
        reveal_strlit("local-declare");
        assert("local-declare"@.len() == 13);
        assert("local-declare"@[0] == 'l');
        assert("match-lambda*"@[0] == 'm');
    } else if h == "macro"@ {
        reveal_strlit("macro");
        assert("macro"@.len() == 5);
        assert("macro"@[0] == 'm');
        assert("begin"@[0] == 'b');
        assert("macro"@[0] == 'm');
        assert("delay"@[0] == 'd');
    } else if h == "named-lambda"@ {
        reveal_strlit("named-lambda");
        assert("named-lambda"@.len() == 12);
        assert("named-lambda"@[0] == 'n');
        assert("syntax-rules"@[0] == 's');
        assert("named-lambda"@[0] == 'n');
        assert("match-lambda"@[0] == 'm');
    } else if h == "open-block-components"@ {
        reveal_strlit("open-block-components");
        assert("open-block-components"@.len() == 21);
        assert("open-block-components"@[0] == 'o');
        assert("with-output-to-string"@[0] == 'w');
    } else if h == "pathname-components"@ {
        reveal_strlit("pathname-components");
        assert("pathname-components"@.len() == 19);
    } else if h == "procedure-components"@ {
        reveal_strlit("procedure-components");
        assert("procedure-components"@.len() == 20);
    } else if h == "sequence-components"@ {
        reveal_strlit("sequence-components");
        assert("sequence-components"@.len() == 19);
    } else if h == "unassigned?-components"@ {
        reveal_strlit("unassigned?-components");
        assert("unassigned?-components"@.len() == 22);
    } else if h == "unbound?-components"@ {
        reveal_strlit("unbound?-components");
        assert("unbound?-components"@.len() == 19);
    } else if h == "using-syntax"@ {
        reveal_strlit("using-syntax");
        assert("using-syntax"@.len() == 12);
        assert("using-syntax"@[0] == 'u');
        assert("syntax-rules"@[0] == 's');
        assert("using-syntax"@[0] == 'u');
        assert("match-lambda"@[0] == 'm');
    } else if h == "variable-components"@ {
        reveal_strlit("variable-components");
        assert("variable-components"@.len() == 19);
    } else if h == "with-input-from-string"@ {
        reveal_strlit("with-input-from-string");
        assert("with-input-from-string"@.len() == 22);
    } else if h == "with-values"@ {
        reveal_strlit("with-values");
        assert("with-values"@.len() == 11);
    }
}

proof fn lemma_count_done_one(items: Seq<Node>, off: int, k: int)
    requires
        2 <= k <= items.len(),
        items[1].end <= off,
        forall|j: int| 2 <= j < items.len() ==> items[j].end > off,
    ensures
        count_done(items, off, k) == 1,
    decreases k,
{
    if k > 2 {
        lemma_count_done_one(items, off, k - 1);
    } else {
        assert(count_done(items, off, 1) == 0);
    }
}

/// A form whose head `scheme.el` gives `scheme-indent-function` 1
/// (`parameterize`, `when`, `let*`, `lambda`, …) has one special argument:
/// a line that begins its body, after that argument and with no body form
/// on an earlier line, is indented at the form's open column plus
/// `lisp-body-indent`.
pub proof fn law_scheme_indent_one_body(e: Env, ni: Seq<usize>, c: Node, off: int, body: int)
    requires
        c.shape == Shape::List,
        c.items@.len() >= 2,
        c.items@[0].shape == Shape::Symbol,
        scheme_el_indent_one(c.items@[0].key@),
        c.items@[1].end <= off,
        forall|j: int| 2 <= j < c.items@.len() ==> c.items@[j].end > off,
        c.items@.len() > 2 ==> line_at(e, c.items@[2].start as int) >= line_at(e, off),
    ensures
        scheme_indent(e, ni, c, off, body) == sat(col(e, ni, c.start as int) + body),
{
    let items = c.items@;
    lemma_count_done_one(items, off, items.len() as int);
    assert(scheme_head(items[0]) == Some(items[0].key@));
    lemma_scheme_one_rule(items[0].key@);
}

/// The heads `scheme.el` gives `scheme-indent-function` 0.
pub open spec fn scheme_el_indent_zero(h: Seq<char>) -> bool {
    h == "begin"@
        || h == "delay"@
        || h == "make-environment"@
        || h == "match-lambda"@
        || h == "match-lambda*"@
        || h == "sequence"@
        || h == "with-output-to-string"@
}

/// The heads `scheme.el` gives `scheme-indent-function` 2.
pub open spec fn scheme_el_indent_two(h: Seq<char>) -> bool {
    h == "do"@
        || h == "let-optionals"@
        || h == "let-optionals*"@
        || h == "receive"@
        || h == "syntax-case"@
        || h == "syntax-table-define"@
}

/// The heads `scheme.el` gives `scheme-indent-function` 3.
pub open spec fn scheme_el_indent_three(h: Seq<char>) -> bool {
    h == "dynamic-wind"@
}

proof fn lemma_scheme_zero_rule(h: Seq<char>)
    requires
        scheme_el_indent_zero(h),
    ensures
        scheme_rule(h) == Some(SchemeRule::Number(0)),
{
    reveal_strlit("let");
    assert("let"@.len() == 3);
    reveal_strlit("match-let");
    assert("match-let"@.len() == 9);
    reveal_strlit("syntax-rules");
    assert("syntax-rules"@.len() == 12);
    if h == "begin"@ {
        reveal_strlit("begin");
        assert("begin"@.len() == 5);
    } else if h == "delay"@ {
        reveal_strlit("delay");
        assert("delay"@.len() == 5);
    } else if h == "make-environment"@ {
        reveal_strlit("make-environment");
        assert("make-environment"@.len() == 16);
    } else if h == "match-lambda"@ {
        reveal_strlit("match-lambda");
        assert("match-lambda"@.len() == 12);
        assert("match-lambda"@[0] == 'm');
        assert("syntax-rules"@[0] == 's');
    } else if h == "match-lambda*"@ {
        reveal_strlit("match-lambda*");
        assert("match-lambda*"@.len() == 13);
    } else if h == "sequence"@ {
        reveal_strlit("sequence");
        assert("sequence"@.len() == 8);
    } else if h == "with-output-to-string"@ {
        reveal_strlit("with-output-to-string");
        assert("with-output-to-string"@.len() == 21);
    }
}

proof fn lemma_scheme_two_rule(h: Seq<char>)
    requires
        scheme_el_indent_two(h),
    ensures
        scheme_rule(h) == Some(SchemeRule::Number(2)),
{
    reveal_strlit("let");
    assert("let"@.len() == 3);
    reveal_strlit("match-let");
    assert("match-let"@.len() == 9);
    reveal_strlit("syntax-rules");
    assert("syntax-rules"@.len() == 12);
    reveal_strlit("begin");
    assert("begin"@.len() == 5);
    reveal_strlit("delay");
    assert("delay"@.len() == 5);
    reveal_strlit("make-environment");
    assert("make-environment"@.len() == 16);
    reveal_strlit("match-lambda");
    assert("match-lambda"@.len() == 12);
    reveal_strlit("match-lambda*");
    assert("match-lambda*"@.len() == 13);
    reveal_strlit("sequence");
    assert("sequence"@.len() == 8);
    reveal_strlit("with-output-to-string");
    assert("with-output-to-string"@.len() == 21);
    reveal_strlit("and-let*");
    assert("and-let*"@.len() == 8);
    reveal_strlit("call-with-input-file");
    assert("call-with-input-file"@.len() == 20);
    reveal_strlit("call-with-output-file");
    assert("call-with-output-file"@.len() == 21);
    reveal_strlit("call-with-port");
    assert("call-with-port"@.len() == 14);
    reveal_strlit("call-with-values");
    assert("call-with-values"@.len() == 16);
    reveal_strlit("case");
    assert("case"@.len() == 4);
    reveal_strlit("check-case");
    assert("check-case"@.len() == 10);
    reveal_strlit("define-library");
    assert("define-library"@.len() == 14);
    reveal_strlit("define-record-type");
    assert("define-record-type"@.len() == 18);
    reveal_strlit("define-values");
    assert("define-values"@.len() == 13);
    reveal_strlit("eval-when");
    assert("eval-when"@.len() == 9);
    reveal_strlit("guard");
    assert("guard"@.len() == 5);
    reveal_strlit("lambda");
    assert("lambda"@.len() == 6);
    reveal_strlit("lambda-checked");
    assert("lambda-checked"@.len() == 14);
    reveal_strlit("let*");
    assert("let*"@.len() == 4);
    reveal_strlit("let*-values");
    assert("let*-values"@.len() == 11);
    reveal_strlit("let-syntax");
    assert("let-syntax"@.len() == 10);
    reveal_strlit("let-values");
    assert("let-values"@.len() == 10);
    reveal_strlit("letrec");
    assert("letrec"@.len() == 6);
    reveal_strlit("letrec*");
    assert("letrec*"@.len() == 7);
    reveal_strlit("letrec-syntax");
    assert("letrec-syntax"@.len() == 13);
    reveal_strlit("library");
    assert("library"@.len() == 7);
    reveal_strlit("match");
    assert("match"@.len() == 5);
    reveal_strlit("match-let*");
    assert("match-let*"@.len() == 10);
    reveal_strlit("match-letrec");
    assert("match-letrec"@.len() == 12);
    reveal_strlit("opt-lambda");
    assert("opt-lambda"@.len() == 10);
    reveal_strlit("opt*-lambda");
    assert("opt*-lambda"@.len() == 11);
    reveal_strlit("parameterize");
    assert("parameterize"@.len() == 12);
    reveal_strlit("test-group");
    assert("test-group"@.len() == 10);
    reveal_strlit("test-group-with-cleanup");
    assert("test-group-with-cleanup"@.len() == 23);
    reveal_strlit("unless");
    assert("unless"@.len() == 6);
    reveal_strlit("when");
    assert("when"@.len() == 4);
    reveal_strlit("with-input-from-file");
    assert("with-input-from-file"@.len() == 20);
    reveal_strlit("with-input-from-port");
    assert("with-input-from-port"@.len() == 20);
    reveal_strlit("with-output-to-file");
    assert("with-output-to-file"@.len() == 19);
    reveal_strlit("with-output-to-port");
    assert("with-output-to-port"@.len() == 19);
    reveal_strlit("with-syntax");
    assert("with-syntax"@.len() == 11);
    reveal_strlit("λ");
    assert("λ"@.len() == 1);
    reveal_strlit("element");
    assert("element"@.len() == 7);
    reveal_strlit("make");
    assert("make"@.len() == 4);
    reveal_strlit("mode");
    assert("mode"@.len() == 4);
    reveal_strlit("root");
    assert("root"@.len() == 4);
    reveal_strlit("style");
    assert("style"@.len() == 5);
    reveal_strlit("with-mode");
    assert("with-mode"@.len() == 9);
    reveal_strlit("access-components");
    assert("access-components"@.len() == 17);
    reveal_strlit("assignment-components");
    assert("assignment-components"@.len() == 21);
    reveal_strlit("combination-components");
    assert("combination-components"@.len() == 22);
    reveal_strlit("comment-components");
    assert("comment-components"@.len() == 18);
    reveal_strlit("conditional-components");
    assert("conditional-components"@.len() == 22);
    reveal_strlit("declaration-components");
    assert("declaration-components"@.len() == 22);
    reveal_strlit("definition-components");
    assert("definition-components"@.len() == 21);
    reveal_strlit("delay-components");
    assert("delay-components"@.len() == 16);
    reveal_strlit("disjunction-components");
    assert("disjunction-components"@.len() == 22);
    reveal_strlit("fluid-let");
    assert("fluid-let"@.len() == 9);
    reveal_strlit("in-package");
    assert("in-package"@.len() == 10);
    reveal_strlit("in-package-components");
    assert("in-package-components"@.len() == 21);
    reveal_strlit("lambda-components");
    assert("lambda-components"@.len() == 17);
    reveal_strlit("lambda-components*");
    assert("lambda-components*"@.len() == 18);
    reveal_strlit("lambda-components**");
    assert("lambda-components**"@.len() == 19);
    reveal_strlit("list-search-negative");
    assert("list-search-negative"@.len() == 20);
    reveal_strlit("list-search-positive");
    assert("list-search-positive"@.len() == 20);
    reveal_strlit("list-transform-negative");
    assert("list-transform-negative"@.len() == 23);
    reveal_strlit("list-transform-positive");
    assert("list-transform-positive"@.len() == 23);
    reveal_strlit("local-declare");
    assert("local-declare"@.len() == 13);
    reveal_strlit("macro");
    assert("macro"@.len() == 5);
    reveal_strlit("named-lambda");
    assert("named-lambda"@.len() == 12);
    reveal_strlit("open-block-components");
    assert("open-block-components"@.len() == 21);
    reveal_strlit("pathname-components");
    assert("pathname-components"@.len() == 19);
    reveal_strlit("procedure-components");
    assert("procedure-components"@.len() == 20);
    reveal_strlit("sequence-components");
    assert("sequence-components"@.len() == 19);
    reveal_strlit("unassigned?-components");
    assert("unassigned?-components"@.len() == 22);
    reveal_strlit("unbound?-components");
    assert("unbound?-components"@.len() == 19);
    reveal_strlit("using-syntax");
    assert("using-syntax"@.len() == 12);
    reveal_strlit("variable-components");
    assert("variable-components"@.len() == 19);
    reveal_strlit("with-input-from-string");
    assert("with-input-from-string"@.len() == 22);
    reveal_strlit("with-values");
    assert("with-values"@.len() == 11);
    if h == "do"@ {
        reveal_strlit("do");
        assert("do"@.len() == 2);
    } else if h == "let-optionals"@ {
        reveal_strlit("let-optionals");
        assert("let-optionals"@.len() == 13);
        assert("let-optionals"@[0] == 'l');
        assert("match-lambda*"@[0] == 'm');
        assert("let-optionals"@[0] == 'l');
        assert("define-values"@[0] == 'd');
        assert("let-optionals"@[3] == '-');
        assert("letrec-syntax"@[3] == 'r');
        assert("let-optionals"@[1] == 'e');
        assert("local-declare"@[1] == 'o');
    } else if h == "let-optionals*"@ {
        reveal_strlit("let-optionals*");
        assert("let-optionals*"@.len() == 14);
        assert("let-optionals*"@[0] == 'l');
        assert("call-with-port"@[0] == 'c');
        assert("let-optionals*"@[0] == 'l');
        assert("define-library"@[0] == 'd');
        assert("let-optionals*"@[1] == 'e');
        assert("lambda-checked"@[1] == 'a');
    } else if h == "receive"@ {
        reveal_strlit("receive");
        assert("receive"@.len() == 7);
        assert("receive"@[0] == 'r');
        assert("letrec*"@[0] == 'l');
        assert("receive"@[0] == 'r');
        assert("library"@[0] == 'l');
        assert("receive"@[0] == 'r');
        assert("element"@[0] == 'e');
    } else if h == "syntax-case"@ {
        reveal_strlit("syntax-case");
        assert("syntax-case"@.len() == 11);
        assert("syntax-case"@[0] == 's');
        assert("let*-values"@[0] == 'l');
        assert("syntax-case"@[0] == 's');
        assert("opt*-lambda"@[0] == 'o');
        assert("syntax-case"@[0] == 's');
        assert("with-syntax"@[0] == 'w');
        assert("syntax-case"@[0] == 's');
        assert("with-values"@[0] == 'w');
    } else if h == "syntax-table-define"@ {
        reveal_strlit("syntax-table-define");
        assert("syntax-table-define"@.len() == 19);
        assert("syntax-table-define"@[0] == 's');
        assert("with-output-to-file"@[0] == 'w');
        assert("syntax-table-define"@[0] == 's');
        assert("with-output-to-port"@[0] == 'w');
        assert("syntax-table-define"@[0] == 's');
        assert("lambda-components**"@[0] == 'l');
        assert("syntax-table-define"@[0] == 's');
        assert("pathname-components"@[0] == 'p');
        assert("syntax-table-define"@[1] == 'y');
        assert("sequence-components"@[1] == 'e');
        assert("syntax-table-define"@[0] == 's');
        assert("unbound?-components"@[0] == 'u');
        assert("syntax-table-define"@[0] == 's');
        assert("variable-components"@[0] == 'v');
    }
}

proof fn lemma_scheme_three_rule(h: Seq<char>)
    requires
        scheme_el_indent_three(h),
    ensures
        scheme_rule(h) == Some(SchemeRule::Number(3)),
{
    reveal_strlit("let");
    assert("let"@.len() == 3);
    reveal_strlit("match-let");
    assert("match-let"@.len() == 9);
    reveal_strlit("syntax-rules");
    assert("syntax-rules"@.len() == 12);
    reveal_strlit("begin");
    assert("begin"@.len() == 5);
    reveal_strlit("delay");
    assert("delay"@.len() == 5);
    reveal_strlit("make-environment");
    assert("make-environment"@.len() == 16);
    reveal_strlit("match-lambda");
    assert("match-lambda"@.len() == 12);
    reveal_strlit("match-lambda*");
    assert("match-lambda*"@.len() == 13);
    reveal_strlit("sequence");
    assert("sequence"@.len() == 8);
    reveal_strlit("with-output-to-string");
    assert("with-output-to-string"@.len() == 21);
    reveal_strlit("and-let*");
    assert("and-let*"@.len() == 8);
    reveal_strlit("call-with-input-file");
    assert("call-with-input-file"@.len() == 20);
    reveal_strlit("call-with-output-file");
    assert("call-with-output-file"@.len() == 21);
    reveal_strlit("call-with-port");
    assert("call-with-port"@.len() == 14);
    reveal_strlit("call-with-values");
    assert("call-with-values"@.len() == 16);
    reveal_strlit("case");
    assert("case"@.len() == 4);
    reveal_strlit("check-case");
    assert("check-case"@.len() == 10);
    reveal_strlit("define-library");
    assert("define-library"@.len() == 14);
    reveal_strlit("define-record-type");
    assert("define-record-type"@.len() == 18);
    reveal_strlit("define-values");
    assert("define-values"@.len() == 13);
    reveal_strlit("eval-when");
    assert("eval-when"@.len() == 9);
    reveal_strlit("guard");
    assert("guard"@.len() == 5);
    reveal_strlit("lambda");
    assert("lambda"@.len() == 6);
    reveal_strlit("lambda-checked");
    assert("lambda-checked"@.len() == 14);
    reveal_strlit("let*");
    assert("let*"@.len() == 4);
    reveal_strlit("let*-values");
    assert("let*-values"@.len() == 11);
    reveal_strlit("let-syntax");
    assert("let-syntax"@.len() == 10);
    reveal_strlit("let-values");
    assert("let-values"@.len() == 10);
    reveal_strlit("letrec");
    assert("letrec"@.len() == 6);
    reveal_strlit("letrec*");
    assert("letrec*"@.len() == 7);
    reveal_strlit("letrec-syntax");
    assert("letrec-syntax"@.len() == 13);
    reveal_strlit("library");
    assert("library"@.len() == 7);
    reveal_strlit("match");
    assert("match"@.len() == 5);
    reveal_strlit("match-let*");
    assert("match-let*"@.len() == 10);
    reveal_strlit("match-letrec");
    assert("match-letrec"@.len() == 12);
    reveal_strlit("opt-lambda");
    assert("opt-lambda"@.len() == 10);
    reveal_strlit("opt*-lambda");
    assert("opt*-lambda"@.len() == 11);
    reveal_strlit("parameterize");
    assert("parameterize"@.len() == 12);
    reveal_strlit("test-group");
    assert("test-group"@.len() == 10);
    reveal_strlit("test-group-with-cleanup");
    assert("test-group-with-cleanup"@.len() == 23);
    reveal_strlit("unless");
    assert("unless"@.len() == 6);
    reveal_strlit("when");
    assert("when"@.len() == 4);
    reveal_strlit("with-input-from-file");
    assert("with-input-from-file"@.len() == 20);
    reveal_strlit("with-input-from-port");
    assert("with-input-from-port"@.len() == 20);
    reveal_strlit("with-output-to-file");
    assert("with-output-to-file"@.len() == 19);
    reveal_strlit("with-output-to-port");
    assert("with-output-to-port"@.len() == 19);
    reveal_strlit("with-syntax");
    assert("with-syntax"@.len() == 11);
    reveal_strlit("λ");
    assert("λ"@.len() == 1);
    reveal_strlit("element");
    assert("element"@.len() == 7);
    reveal_strlit("make");
    assert("make"@.len() == 4);
    reveal_strlit("mode");
    assert("mode"@.len() == 4);
    reveal_strlit("root");
    assert("root"@.len() == 4);
    reveal_strlit("style");
    assert("style"@.len() == 5);
    reveal_strlit("with-mode");
    assert("with-mode"@.len() == 9);
    reveal_strlit("access-components");
    assert("access-components"@.len() == 17);
    reveal_strlit("assignment-components");
    assert("assignment-components"@.len() == 21);
    reveal_strlit("combination-components");
    assert("combination-components"@.len() == 22);
    reveal_strlit("comment-components");
    assert("comment-components"@.len() == 18);
    reveal_strlit("conditional-components");
    assert("conditional-components"@.len() == 22);
    reveal_strlit("declaration-components");
    assert("declaration-components"@.len() == 22);
    reveal_strlit("definition-components");
    assert("definition-components"@.len() == 21);
    reveal_strlit("delay-components");
    assert("delay-components"@.len() == 16);
    reveal_strlit("disjunction-components");
    assert("disjunction-components"@.len() == 22);
    reveal_strlit("fluid-let");
    assert("fluid-let"@.len() == 9);
    reveal_strlit("in-package");
    assert("in-package"@.len() == 10);
    reveal_strlit("in-package-components");
    assert("in-package-components"@.len() == 21);
    reveal_strlit("lambda-components");
    assert("lambda-components"@.len() == 17);
    reveal_strlit("lambda-components*");
    assert("lambda-components*"@.len() == 18);
    reveal_strlit("lambda-components**");
    assert("lambda-components**"@.len() == 19);
    reveal_strlit("list-search-negative");
    assert("list-search-negative"@.len() == 20);
    reveal_strlit("list-search-positive");
    assert("list-search-positive"@.len() == 20);
    reveal_strlit("list-transform-negative");
    assert("list-transform-negative"@.len() == 23);
    reveal_strlit("list-transform-positive");
    assert("list-transform-positive"@.len() == 23);
    reveal_strlit("local-declare");
    assert("local-declare"@.len() == 13);
    reveal_strlit("macro");
    assert("macro"@.len() == 5);
    reveal_strlit("named-lambda");
    assert("named-lambda"@.len() == 12);
    reveal_strlit("open-block-components");
    assert("open-block-components"@.len() == 21);
    reveal_strlit("pathname-components");
    assert("pathname-components"@.len() == 19);
    reveal_strlit("procedure-components");
    assert("procedure-components"@.len() == 20);
    reveal_strlit("sequence-components");
    assert("sequence-components"@.len() == 19);
    reveal_strlit("unassigned?-components");
    assert("unassigned?-components"@.len() == 22);
    reveal_strlit("unbound?-components");
    assert("unbound?-components"@.len() == 19);
    reveal_strlit("using-syntax");
    assert("using-syntax"@.len() == 12);
    reveal_strlit("variable-components");
    assert("variable-components"@.len() == 19);
    reveal_strlit("with-input-from-string");
    assert("with-input-from-string"@.len() == 22);
    reveal_strlit("with-values");
    assert("with-values"@.len() == 11);
    reveal_strlit("do");
    assert("do"@.len() == 2);
    reveal_strlit("let-optionals");
    assert("let-optionals"@.len() == 13);
    reveal_strlit("let-optionals*");
    assert("let-optionals*"@.len() == 14);
    reveal_strlit("receive");
    assert("receive"@.len() == 7);
    reveal_strlit("syntax-case");
    assert("syntax-case"@.len() == 11);
    reveal_strlit("syntax-table-define");
    assert("syntax-table-define"@.len() == 19);
    if h == "dynamic-wind"@ {
        reveal_strlit("dynamic-wind");
        assert("dynamic-wind"@.len() == 12);
        assert("dynamic-wind"@[0] == 'd');
        assert("syntax-rules"@[0] == 's');
        assert("dynamic-wind"@[0] == 'd');
        assert("match-lambda"@[0] == 'm');
        assert("dynamic-wind"@[0] == 'd');
        assert("match-letrec"@[0] == 'm');
        assert("dynamic-wind"@[0] == 'd');
        assert("parameterize"@[0] == 'p');
        assert("dynamic-wind"@[0] == 'd');
        assert("named-lambda"@[0] == 'n');
        assert("dynamic-wind"@[0] == 'd');
        assert("using-syntax"@[0] == 'u');
    }
}

/// The Scheme engine's indent property of every head is Emacs
/// `scheme.el`'s `scheme-indent-function`: `let` and `match-let` indent as
/// `let`, `syntax-rules` as `defun`, and the heads of its tables take
/// their number (`begin` 0; `parameterize`, `when`, `let*` 1; `do` 2;
/// `dynamic-wind` 3).
pub proof fn law_scheme_indent_table(h: Seq<char>)
    ensures
        h == "let"@ || h == "match-let"@ ==> scheme_rule(h) == Some(SchemeRule::Let),
        h == "syntax-rules"@ ==> scheme_rule(h) == Some(SchemeRule::Defun),
        scheme_el_indent_zero(h) ==> scheme_rule(h) == Some(SchemeRule::Number(0)),
        scheme_el_indent_one(h) ==> scheme_rule(h) == Some(SchemeRule::Number(1)),
        scheme_el_indent_two(h) ==> scheme_rule(h) == Some(SchemeRule::Number(2)),
        scheme_el_indent_three(h) ==> scheme_rule(h) == Some(SchemeRule::Number(3)),
{
    reveal_strlit("let");
    reveal_strlit("match-let");
    reveal_strlit("syntax-rules");
    assert("let"@.len() == 3);
    assert("match-let"@.len() == 9);
    if h == "syntax-rules"@ {
        assert("syntax-rules"@.len() == 12);
    }
    if scheme_el_indent_zero(h) {
        lemma_scheme_zero_rule(h);
    }
    if scheme_el_indent_one(h) {
        lemma_scheme_one_rule(h);
    }
    if scheme_el_indent_two(h) {
        lemma_scheme_two_rule(h);
    }
    if scheme_el_indent_three(h) {
        lemma_scheme_three_rule(h);
    }
}

} // verus!
