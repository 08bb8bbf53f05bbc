//! Structural search-and-replace: a pattern form with metavariables is
//! matched anywhere in the tree, and every outermost match is replaced by a
//! template with the captured text substituted. Matching is structural
//! (modulo whitespace and comments); what a rewrite means is the caller's
//! business, the library guarantees only exact matching and a parse-safe
//! result.
//!
//! Metavariables are symbols: `$name` captures one form, `$_` matches one
//! form without capturing, `$name...` (or `$name ...`) as the last element
//! of a list captures the rest of it, and `$name:class` restricts the match
//! to `any`, `atom`, `lit`, `sym` or `list`. `$$x` is the literal symbol
//! `$x`. A metavariable used twice in a pattern matches only equal forms.

use vstd::prelude::*;
use vstd::utf8::{decode_utf8, encode_utf8};

use crate::edit::{landed_spans, splice, splice_spec, Edit, SpliceError};
use crate::config::FormatConfig;
use crate::format::byte_table;
use crate::hash::{file_hash, file_hash_spec};
use crate::patch::ranges_are;
use crate::reader::{dialect_name, dialect_name_spec, first_fault, lx_first_fault, read, reads_as, Dialect, Node, Shape};
use crate::write::WriteError;
use crate::structural::{byte_table_of, edit_at, edits_are, et, seg, seg_string, EditT};
use crate::text::{has_prefix_at, rust_line_spans, rust_lines, skip_ws, starts_with_at, trim, trimmed, word_bounds};
use crate::refactor::{all_idx, all_landed, refactored, reindent_spans, derefs, extends, keep_outer, keep_outer_exec, lemma_extends, lemma_extends_empty, sort_calls, sort_calls_exec};
use crate::sexpr::{items_eq, opt_eq_spec, struct_eq, struct_eq_spec};
use crate::text::{chars_of, eq_lit, next_of, next_of_exec, lemma_next_of, slice_range, split_once, string_of, string_of_range};

verus! {

/// What a metavariable accepts.
#[derive(Debug, Clone, Copy, PartialEq, Eq, Structural)]
pub enum MClass {
    /// Any form.
    Any,
    /// A symbol, keyword, number, string, character or boolean.
    Atom,
    /// A number, string, character, boolean or quoted form.
    Lit,
    /// A symbol.
    Sym,
    /// A list.
    List,
}

/// A parsed metavariable: its name (`None` for the wildcard `$_`), its
/// class, and whether it captures a run of forms.
pub struct Metavar {
    pub name: Option<String>,
    pub class: MClass,
    pub seq: bool,
}

/// The class a `:class` suffix names.
pub open spec fn class_named(c: Seq<char>) -> Option<MClass> {
    if c == "any"@ {
        Some(MClass::Any)
    } else if c == "atom"@ {
        Some(MClass::Atom)
    } else if c == "lit"@ {
        Some(MClass::Lit)
    } else if c == "sym"@ {
        Some(MClass::Sym)
    } else if c == "list"@ {
        Some(MClass::List)
    } else {
        None
    }
}

/// Whether `s` ends with `...`.
pub open spec fn ends_with_dots(s: Seq<char>) -> bool {
    s.len() >= 3 && s[s.len() - 3] == '.' && s[s.len() - 2] == '.' && s[s.len() - 1] == '.'
}

/// What a symbol token is as a metavariable: `None` for an ordinary symbol
/// (one not starting with `$`, the bare `$`, or a `$$`-escaped literal),
/// `Some(Err(message))` for a malformed one (an unknown class), else
/// `Some(Ok((name, class, seq)))`.
pub open spec fn metavar_spec(s: Seq<char>) -> Option<Result<(Option<Seq<char>>, MClass, bool), Seq<char>>> {
    if s.len() < 2 || s[0] != '$' || s[1] == '$' {
        None
    } else {
        let body = s.subrange(1, s.len() as int);
        let seq = ends_with_dots(body);
        let b = if seq {
            body.subrange(0, body.len() - 3)
        } else {
            body
        };
        let (name, suffix) = match split_once(b, ':') {
            Some((n, c)) => (n, Some(c)),
            None => (b, None),
        };
        let class = match suffix {
            Some(c) => class_named(c),
            None => Some(MClass::Any),
        };
        match class {
            None => Some(Err("unknown metavariable class `:"@ + suffix.unwrap_or(Seq::empty()) + "`"@)),
            Some(k) => Some(Ok((if name == "_"@ { None } else { Some(name) }, k, seq))),
        }
    }
}

pub open spec fn mv_view(m: Metavar) -> (Option<Seq<char>>, MClass, bool) {
    (
        match m.name {
            Some(n) => Some(n@),
            None => None,
        },
        m.class,
        m.seq,
    )
}

pub open spec fn parsed_view(r: Option<Result<Metavar, String>>) -> Option<Result<(Option<Seq<char>>, MClass, bool), Seq<char>>> {
    match r {
        None => None,
        Some(Ok(m)) => Some(Ok(mv_view(m))),
        Some(Err(e)) => Some(Err(e@)),
    }
}

fn class_of(c: &[char]) -> (r: Option<MClass>)
    ensures
        r == class_named(c@),
{
    if eq_lit(c, "any") {
        Some(MClass::Any)
    } else if eq_lit(c, "atom") {
        Some(MClass::Atom)
    } else if eq_lit(c, "lit") {
        Some(MClass::Lit)
    } else if eq_lit(c, "sym") {
        Some(MClass::Sym)
    } else if eq_lit(c, "list") {
        Some(MClass::List)
    } else {
        None
    }
}

/// Read the symbol token `s` as a metavariable (see [`metavar_spec`]).
pub fn metavar_of(s: &[char]) -> (r: Option<Result<Metavar, String>>)
    ensures
        parsed_view(r) == metavar_spec(s@),
{
    if s.len() < 2 || s[0] != '$' || s[1] == '$' {
        return None;
    }
    let ghost body = s@.subrange(1, s@.len() as int);
    let mut end = s.len();
    let mut seq = false;
    if s.len() - 1 >= 3 && s[end - 3] == '.' && s[end - 2] == '.' && s[end - 1] == '.' {
        end = end - 3;
        seq = true;
    }
    assert(seq == ends_with_dots(body));
    let b = slice_range(s, 1, end);
    let ghost bv = if seq {
        body.subrange(0, body.len() - 3)
    } else {
        body
    };
    assert(b@ == bv);
    let j = next_of_exec(b.as_slice(), ':', 0);
    proof {
        lemma_next_of(b@, ':', 0);
    }
    let (name, class) = if j < b.len() {
        let c = slice_range(b.as_slice(), j + 1, b.len());
        (slice_range(b.as_slice(), 0, j), class_of(c.as_slice()))
    } else {
        (slice_range(b.as_slice(), 0, b.len()), Some(MClass::Any))
    };
    proof {
        if j < b.len() {
            assert(split_once(bv, ':') == Some((bv.subrange(0, j as int), bv.subrange(j + 1, bv.len() as int))));
            assert(name@ == bv.subrange(0, j as int));
        } else {
            assert(split_once(bv, ':') is None);
            assert(name@ == bv);
        }
    }
    match class {
        None => {
            let c = string_of_range(b.as_slice(), j + 1, b.len());
            let mut m = String::from_str("unknown metavariable class `:");
            let tail = chars_of(c.as_str());
            crate::text::push_chars(&mut m, tail.as_slice());
            crate::text::push_char(&mut m, '`');
            proof {
                reveal_strlit("unknown metavariable class `:");
                reveal_strlit("`");
                assert(j < b.len());
                let sfx = bv.subrange(j + 1, bv.len() as int);
                assert(c@ == sfx);
                assert(m@ == "unknown metavariable class `:"@ + sfx + "`"@);
            }
            Some(Err(m))
        },
        Some(k) => {
            let n = if eq_lit(name.as_slice(), "_") {
                None
            } else {
                Some(string_of(name.as_slice()))
            };
            Some(Ok(Metavar { name: n, class: k, seq }))
        },
    }
}

/// `$$x` names the literal symbol `$x`; any other symbol names itself.
pub open spec fn unescape(s: Seq<char>) -> Seq<char> {
    if s.len() >= 2 && s[0] == '$' && s[1] == '$' {
        s.subrange(1, s.len() as int)
    } else {
        s
    }
}

/// Whether `n` is the bare `...` symbol.
pub open spec fn is_ellipsis(n: Node) -> bool {
    n.shape == Shape::Symbol && n.key@ == "..."@
}

/// Whether `n` belongs to `class`.
pub open spec fn class_ok(class: MClass, n: Node) -> bool {
    match class {
        MClass::Any => true,
        MClass::Sym => n.shape == Shape::Symbol,
        MClass::List => n.shape == Shape::List,
        MClass::Atom => n.shape == Shape::Symbol || n.shape == Shape::Keyword || n.shape == Shape::Number
            || n.shape == Shape::Str || n.shape == Shape::Char || n.shape == Shape::Bool,
        MClass::Lit => n.shape == Shape::Number || n.shape == Shape::Str || n.shape == Shape::Char
            || n.shape == Shape::Bool || (n.shape == Shape::Prefixed && n.key@ == "Quote"@),
    }
}

fn class_ok_exec(class: MClass, n: &Node) -> (b: bool)
    ensures
        b == class_ok(class, *n),
{
    match class {
        MClass::Any => true,
        MClass::Sym => n.shape == Shape::Symbol,
        MClass::List => n.shape == Shape::List,
        MClass::Atom => match n.shape {
            Shape::Symbol | Shape::Keyword | Shape::Number | Shape::Str | Shape::Char | Shape::Bool => true,
            _ => false,
        },
        MClass::Lit => match n.shape {
            Shape::Number | Shape::Str | Shape::Char | Shape::Bool => true,
            Shape::Prefixed => {
                let k = chars_of(n.key.as_str());
                eq_lit(k.as_slice(), "Quote")
            },
            _ => false,
        },
    }
}


// --- Matching ------------------------------------------------------------------------

/// What each metavariable has captured so far: its name, whether it
/// captured a run, and the forms (exactly one for a single capture).
pub open spec fn lookup(b: Seq<(Seq<char>, (bool, Seq<Node>))>, n: Seq<char>) -> Option<(bool, Seq<Node>)>
    decreases b.len(),
{
    if b.len() == 0 {
        None
    } else if b.last().0 == n {
        Some(b.last().1)
    } else {
        lookup(b.drop_last(), n)
    }
}

/// Whether two captures are of the same kind and structurally equal.
pub open spec fn cap_eq(a: (bool, Seq<Node>), c: (bool, Seq<Node>)) -> bool {
    a.0 == c.0 && a.1.len() == c.1.len() && items_eq(a.1, c.1, a.1.len() as int)
}

/// Record `cap` under `name`: the wildcard records nothing, a new name is
/// added, and a name seen before must capture the same again (a
/// metavariable used twice matches only equal forms).
pub open spec fn bind_spec(b: Seq<(Seq<char>, (bool, Seq<Node>))>, name: Option<Seq<char>>, cap: (bool, Seq<Node>)) -> Option<Seq<(Seq<char>, (bool, Seq<Node>))>> {
    match name {
        None => Some(b),
        Some(n) => match lookup(b, n) {
            None => Some(b.push((n, cap))),
            Some(prev) => if cap_eq(prev, cap) {
                Some(b)
            } else {
                None
            },
        },
    }
}

/// The message refusing a run metavariable before the end of a list.
pub open spec fn not_last_msg() -> Seq<char> {
    "a sequence metavariable must be the last element"@
}

/// A pattern list's elements from `i` on, split into fixed elements and an
/// optional trailing run metavariable: `Ok(Some((k, mv)))` when element `k`
/// is the run metavariable (`$x...`, or `$x` followed by a separate `...`),
/// `Ok(None)` when every element is fixed, and an error for a malformed
/// metavariable or a run metavariable that is not last.
pub open spec fn compile_from(items: Seq<Node>, i: int) -> Result<Option<(int, (Option<Seq<char>>, MClass, bool))>, Seq<char>>
    decreases items.len() - i,
{
    if i < 0 || i >= items.len() {
        Ok(None)
    } else {
        let it = items[i];
        let mv = if it.shape == Shape::Symbol {
            metavar_spec(it.key@)
        } else {
            None
        };
        match mv {
            Some(Err(e)) => Err(e),
            Some(Ok(m)) => {
                let apart = !m.2 && i + 1 < items.len() && is_ellipsis(items[i + 1]);
                if m.2 || apart {
                    let next = if apart {
                        i + 2
                    } else {
                        i + 1
                    };
                    if next < items.len() {
                        Err(not_last_msg())
                    } else {
                        Ok(Some((i, (m.0, m.1, true))))
                    }
                } else {
                    compile_from(items, i + 1)
                }
            },
            None => compile_from(items, i + 1),
        }
    }
}

/// Match the first `k` pattern elements against the first `k` target
/// elements in order, threading the captures.
pub open spec fn match_prefix(ps: Seq<Node>, ts: Seq<Node>, k: int, b: Seq<(Seq<char>, (bool, Seq<Node>))>) -> Option<Seq<(Seq<char>, (bool, Seq<Node>))>>
    decreases ps, k,
{
    if k <= 0 {
        Some(b)
    } else if k > ps.len() || k > ts.len() {
        None
    } else {
        match match_prefix(ps, ts, k - 1, b) {
            None => None,
            Some(b1) => pmatch(ps[k - 1], ts[k - 1], b1),
        }
    }
}

/// Match optional children: both absent, or both present and matching.
pub open spec fn match_opt(p: Option<Box<Node>>, t: Option<Box<Node>>, b: Seq<(Seq<char>, (bool, Seq<Node>))>) -> Option<Seq<(Seq<char>, (bool, Seq<Node>))>>
    decreases p, 4int,
{
    match (p, t) {
        (None, None) => Some(b),
        (Some(x), Some(y)) => pmatch(*x, *y, b),
        _ => None,
    }
}

/// Whether every target element from `n` on belongs to `class`.
pub open spec fn all_class(class: MClass, ts: Seq<Node>, n: int) -> bool {
    forall|i: int| n <= i < ts.len() ==> class_ok(class, #[trigger] ts[i])
}

/// Match a pattern list's elements against a target list's, then the
/// dotted tails.
pub open spec fn match_list(p: Node, t: Node, b: Seq<(Seq<char>, (bool, Seq<Node>))>) -> Option<Seq<(Seq<char>, (bool, Seq<Node>))>>
    decreases p, 2int,
{
    let ps = p.items@;
    let ts = t.items@;
    match compile_from(ps, 0) {
        Err(_) => None,
        Ok(None) => if ps.len() != ts.len() {
            None
        } else {
            match match_prefix(ps, ts, ps.len() as int, b) {
                None => None,
                Some(b1) => match_opt(p.tail, t.tail, b1),
            }
        },
        Ok(Some((n, m))) => if ts.len() < n || n > ps.len() {
            None
        } else {
            match match_prefix(ps, ts, n, b) {
                None => None,
                Some(b1) => if !all_class(m.1, ts, n) {
                    None
                } else {
                    match bind_spec(b1, m.0, (true, ts.subrange(n, ts.len() as int))) {
                        None => None,
                        Some(b2) => match_opt(p.tail, t.tail, b2),
                    }
                },
            }
        },
    }
}

/// Match pattern `p` against target `t`, extending the captures `b`;
/// `None` when they do not match. A metavariable matches a form of its
/// class (a run metavariable only as a list's last element); a literal
/// symbol matches the same symbol (`$$x` matching `$x`); lists match by
/// delimiter, elements and tail; reader macros, `#tag` forms and labels by
/// their kind and what they apply to; anything else by structural
/// equality.
pub open spec fn pmatch(p: Node, t: Node, b: Seq<(Seq<char>, (bool, Seq<Node>))>) -> Option<Seq<(Seq<char>, (bool, Seq<Node>))>>
    decreases p, 3int,
{
    let mv = if p.shape == Shape::Symbol {
        metavar_spec(p.key@)
    } else {
        None
    };
    if mv is Some && mv->0 is Ok {
        let m = mv->0->Ok_0;
        if m.2 {
            None
        } else if class_ok(m.1, t) {
            bind_spec(b, m.0, (false, seq![t]))
        } else {
            None
        }
    } else if p.shape == Shape::Symbol && t.shape == Shape::Symbol {
        if unescape(p.key@) == t.key@ {
            Some(b)
        } else {
            None
        }
    } else if p.shape == Shape::List && t.shape == Shape::List {
        if p.key@ == t.key@ {
            match_list(p, t, b)
        } else {
            None
        }
    } else if p.shape == Shape::Prefixed && t.shape == Shape::Prefixed {
        if p.key@ == t.key@ && p.longhand == t.longhand {
            match match_opt(p.inner, t.inner, b) {
                None => None,
                Some(b1) => match_opt(p.arg, t.arg, b1),
            }
        } else {
            None
        }
    } else if (p.shape == Shape::HashLiteral && t.shape == Shape::HashLiteral) || (p.shape == Shape::Label
        && t.shape == Shape::Label) {
        if p.key@ == t.key@ {
            match_opt(p.inner, t.inner, b)
        } else {
            None
        }
    } else if struct_eq_spec(p, t) {
        Some(b)
    } else {
        None
    }
}


/// One capture: a metavariable's name, whether it captured a run, and the
/// forms it captured.
pub struct Bound<'t> {
    pub name: Vec<char>,
    pub many: bool,
    pub nodes: Vec<&'t Node>,
}

pub open spec fn bound_view<'t>(x: Bound<'t>) -> (Seq<char>, (bool, Seq<Node>)) {
    (x.name@, (x.many, derefs(x.nodes@)))
}

pub open spec fn binds_view<'t>(b: Seq<Bound<'t>>) -> Seq<(Seq<char>, (bool, Seq<Node>))> {
    Seq::new(b.len(), |i: int| bound_view(b[i]))
}

proof fn lemma_binds_push<'t>(b: Seq<Bound<'t>>, x: Bound<'t>)
    ensures
        binds_view(b.push(x)) == binds_view(b).push(bound_view(x)),
{
    assert(binds_view(b.push(x)) =~= binds_view(b).push(bound_view(x)));
}

/// The index of the last capture named `n`.
fn find_bound<'t>(b: &Vec<Bound<'t>>, n: &[char]) -> (r: Option<usize>)
    ensures
        match r {
            None => lookup(binds_view(b@), n@) is None,
            Some(i) => i < b@.len() && lookup(binds_view(b@), n@) == Some(bound_view(b@[i as int]).1),
        },
{
    let ghost v = binds_view(b@);
    let mut k: usize = b.len();
    assert(v.subrange(0, k as int) == v);
    while k > 0
        invariant
            k <= b@.len(),
            v == binds_view(b@),
            lookup(v, n@) == lookup(v.subrange(0, k as int), n@),
        decreases k,
    {
        let ghost w = v.subrange(0, k as int);
        assert(w.drop_last() == v.subrange(0, k - 1));
        assert(w.last() == bound_view(b@[k - 1]));
        if crate::text::seq_eq(b[k - 1].name.as_slice(), n) {
            return Some(k - 1);
        }
        k = k - 1;
    }
    None
}

fn items_eq_refs(xs: &Vec<&Node>, ys: &Vec<&Node>) -> (r: bool)
    requires
        xs@.len() == ys@.len(),
    ensures
        r == items_eq(derefs(xs@), derefs(ys@), xs@.len() as int),
{
    let ghost dx = derefs(xs@);
    let ghost dy = derefs(ys@);
    let mut k: usize = 0;
    while k < xs.len()
        invariant
            xs@.len() == ys@.len(),
            dx == derefs(xs@),
            dy == derefs(ys@),
            k <= xs@.len(),
            items_eq(dx, dy, k as int),
        decreases xs.len() - k,
    {
        if !struct_eq(xs[k], ys[k]) {
            proof {
                lemma_items_eq_grows(dx, dy, k + 1, xs@.len() as int);
            }
            return false;
        }
        k = k + 1;
    }
    true
}

proof fn lemma_items_eq_grows(xs: Seq<Node>, ys: Seq<Node>, j: int, k: int)
    requires
        0 <= j <= k <= xs.len(),
    ensures
        items_eq(xs, ys, k) ==> items_eq(xs, ys, j),
    decreases k - j,
{
    if j < k {
        lemma_items_eq_grows(xs, ys, j, k - 1);
    }
}

/// Record a capture (see [`bind_spec`]).
fn bind<'t>(b: &mut Vec<Bound<'t>>, name: &Option<String>, many: bool, nodes: Vec<&'t Node>) -> (ok: bool)
    ensures
        ok ==> bind_spec(
            binds_view(old(b)@),
            match *name { Some(n) => Some(n@), None => None },
            (many, derefs(nodes@)),
        ) == Some(binds_view(final(b)@)),
        !ok ==> bind_spec(
            binds_view(old(b)@),
            match *name { Some(n) => Some(n@), None => None },
            (many, derefs(nodes@)),
        ) is None,
{
    match name {
        None => true,
        Some(n) => {
            let nc = chars_of(n.as_str());
            match find_bound(b, nc.as_slice()) {
                None => {
                    let x = Bound { name: nc, many, nodes };
                    proof {
                        lemma_binds_push(b@, x);
                    }
                    b.push(x);
                    true
                },
                Some(i) => {
                    let prev = &b[i];
                    prev.many == many && prev.nodes.len() == nodes.len() && items_eq_refs(&prev.nodes, &nodes)
                },
            }
        },
    }
}

fn mv_name(m: &Option<Result<Metavar, String>>) -> (r: bool)
    ensures
        r == (parsed_view(*m) is Some && parsed_view(*m)->0 is Err),
{
    match m {
        Some(Err(_)) => true,
        _ => false,
    }
}

/// The split of a pattern list's elements (see [`compile_from`]).
fn compile_items(items: &[Node]) -> (r: Result<Option<(usize, Metavar)>, String>)
    ensures
        match r {
            Err(e) => compile_from(items@, 0) == Err::<Option<(int, (Option<Seq<char>>, MClass, bool))>, Seq<char>>(e@),
            Ok(None) => compile_from(items@, 0) == Ok::<Option<(int, (Option<Seq<char>>, MClass, bool))>, Seq<char>>(None),
            Ok(Some((k, m))) => compile_from(items@, 0) == Ok::<Option<(int, (Option<Seq<char>>, MClass, bool))>, Seq<char>>(Some((k as int, mv_view(m)))),
        },
{
    let mut i: usize = 0;
    while i < items.len()
        invariant
            i <= items@.len(),
            compile_from(items@, i as int) == compile_from(items@, 0),
        decreases items.len() - i,
    {
        let it = &items[i];
        if it.shape == Shape::Symbol {
            let kc = chars_of(it.key.as_str());
            match metavar_of(kc.as_slice()) {
                Some(Err(e)) => return Err(e),
                Some(Ok(m)) => {
                    let apart = !m.seq && i + 1 < items.len() && is_ellipsis_exec(&items[i + 1]);
                    if m.seq || apart {
                        let next = if apart {
                            i + 2
                        } else {
                            i + 1
                        };
                        if next < items.len() {
                            proof {
                                reveal_strlit("a sequence metavariable must be the last element");
                            }
                            return Err(String::from_str("a sequence metavariable must be the last element"));
                        }
                        return Ok(Some((i, Metavar { name: m.name, class: m.class, seq: true })));
                    }
                },
                None => {},
            }
        }
        i = i + 1;
    }
    Ok(None)
}

fn is_ellipsis_exec(n: &Node) -> (b: bool)
    ensures
        b == is_ellipsis(*n),
{
    if n.shape != Shape::Symbol {
        return false;
    }
    let k = chars_of(n.key.as_str());
    eq_lit(k.as_slice(), "...")
}

proof fn lemma_prefix_none(ps: Seq<Node>, ts: Seq<Node>, j: int, k: int, b: Seq<(Seq<char>, (bool, Seq<Node>))>)
    requires
        0 <= j <= k,
        match_prefix(ps, ts, j, b) is None,
    ensures
        match_prefix(ps, ts, k, b) is None,
    decreases k - j,
{
    if j < k {
        lemma_prefix_none(ps, ts, j, k - 1, b);
    }
}

proof fn lemma_compile_index(items: Seq<Node>, i: int)
    requires
        0 <= i,
    ensures
        compile_from(items, i) matches Ok(Some((k, _))) ==> i <= k < items.len(),
    decreases items.len() - i,
{
    if i < items.len() {
        lemma_compile_index(items, i + 1);
    }
}

fn match_prefix_exec<'t>(ps: &[Node], ts: &'t [Node], n: usize, b: &mut Vec<Bound<'t>>) -> (ok: bool)
    requires
        n <= ps@.len(),
        n <= ts@.len(),
    ensures
        ok ==> match_prefix(ps@, ts@, n as int, binds_view(old(b)@)) == Some(binds_view(final(b)@)),
        !ok ==> match_prefix(ps@, ts@, n as int, binds_view(old(b)@)) is None,
    decreases ps@, 0int,
{
    let ghost b0 = binds_view(b@);
    let mut k: usize = 0;
    while k < n
        invariant
            n <= ps@.len(),
            n <= ts@.len(),
            k <= n,
            b0 == binds_view(old(b)@),
            match_prefix(ps@, ts@, k as int, b0) == Some(binds_view(b@)),
        decreases n - k,
    {
        if !try_match(&ps[k], &ts[k], b) {
            proof {
                assert(match_prefix(ps@, ts@, k + 1, b0) is None);
                lemma_prefix_none(ps@, ts@, k + 1, n as int, b0);
            }
            return false;
        }
        k = k + 1;
    }
    true
}

fn match_opt_exec<'t>(p: &Option<Box<Node>>, t: &'t Option<Box<Node>>, b: &mut Vec<Bound<'t>>) -> (ok: bool)
    ensures
        ok ==> match_opt(*p, *t, binds_view(old(b)@)) == Some(binds_view(final(b)@)),
        !ok ==> match_opt(*p, *t, binds_view(old(b)@)) is None,
    decreases *p, 4int,
{
    match (p, t) {
        (None, None) => true,
        (Some(x), Some(y)) => try_match(x, y, b),
        _ => false,
    }
}

fn match_list_exec<'t>(p: &Node, t: &'t Node, b: &mut Vec<Bound<'t>>) -> (ok: bool)
    ensures
        ok ==> match_list(*p, *t, binds_view(old(b)@)) == Some(binds_view(final(b)@)),
        !ok ==> match_list(*p, *t, binds_view(old(b)@)) is None,
    decreases *p, 2int,
{
    let ps = p.items.as_slice();
    let ts = t.items.as_slice();
    match compile_items(ps) {
        Err(_) => false,
        Ok(None) => {
            if ps.len() != ts.len() {
                return false;
            }
            match_prefix_exec(ps, ts, ps.len(), b) && match_opt_exec(&p.tail, &t.tail, b)
        },
        Ok(Some((n, m))) => {
            proof {
                lemma_compile_index(ps@, 0);
            }
            if ts.len() < n {
                return false;
            }
            if !match_prefix_exec(ps, ts, n, b) {
                return false;
            }
            let mut run: Vec<&'t Node> = Vec::new();
            let mut i: usize = n;
            while i < ts.len()
                invariant
                    n <= i <= ts@.len(),
                    ps@ == p.items@,
                    ts@ == t.items@,
                    compile_from(ps@, 0) == Ok::<Option<(int, (Option<Seq<char>>, MClass, bool))>, Seq<char>>(Some((n as int, mv_view(m)))),
                    match_prefix(ps@, ts@, n as int, binds_view(old(b)@)) == Some(binds_view(b@)),
                    derefs(run@) == ts@.subrange(n as int, i as int),
                    forall|q: int| n <= q < i ==> class_ok(m.class, #[trigger] ts@[q]),
                decreases ts.len() - i,
            {
                if !class_ok_exec(m.class, &ts[i]) {
                    assert(!all_class(m.class, ts@, n as int));
                    return false;
                }
                let ghost r0 = run@;
                run.push(&ts[i]);
                assert(derefs(run@) =~= derefs(r0).push(ts@[i as int]));
                assert(ts@.subrange(n as int, i + 1) =~= ts@.subrange(n as int, i as int).push(ts@[i as int]));
                i = i + 1;
            }
            bind(b, &m.name, true, run) && match_opt_exec(&p.tail, &t.tail, b)
        },
    }
}

/// Match pattern `p` against target `t`, extending the captures `b` (see
/// [`pmatch`]); on a mismatch what `b` holds is unspecified.
fn try_match<'t>(p: &Node, t: &'t Node, b: &mut Vec<Bound<'t>>) -> (ok: bool)
    ensures
        ok ==> pmatch(*p, *t, binds_view(old(b)@)) == Some(binds_view(final(b)@)),
        !ok ==> pmatch(*p, *t, binds_view(old(b)@)) is None,
    decreases *p, 3int,
{
    if p.shape == Shape::Symbol {
        let kc = chars_of(p.key.as_str());
        match metavar_of(kc.as_slice()) {
            Some(Ok(m)) => {
                if m.seq {
                    return false;
                }
                if !class_ok_exec(m.class, t) {
                    return false;
                }
                let mut one: Vec<&'t Node> = Vec::new();
                one.push(t);
                assert(derefs(one@) == seq![*t]);
                return bind(b, &m.name, false, one);
            },
            _ => {},
        }
    }
    let same_shape = p.shape == t.shape;
    if same_shape && p.shape == Shape::Symbol {
        let pk = chars_of(p.key.as_str());
        let tk = chars_of(t.key.as_str());
        let lit = if pk.len() >= 2 && pk[0] == '$' && pk[1] == '$' {
            slice_range(pk.as_slice(), 1, pk.len())
        } else {
            slice_range(pk.as_slice(), 0, pk.len())
        };
        assert(lit@ == unescape(pk@));
        assert(!(metavar_spec(p.key@) is Some && metavar_spec(p.key@)->0 is Ok));
        return crate::text::seq_eq(lit.as_slice(), tk.as_slice());
    }
    if same_shape && (p.shape == Shape::List || p.shape == Shape::Prefixed || p.shape == Shape::HashLiteral
        || p.shape == Shape::Label) {
        let pk = chars_of(p.key.as_str());
        let tk = chars_of(t.key.as_str());
        if !crate::text::seq_eq(pk.as_slice(), tk.as_slice()) {
            return false;
        }
        return match p.shape {
            Shape::List => match_list_exec(p, t, b),
            Shape::Prefixed => p.longhand == t.longhand && match_opt_exec(&p.inner, &t.inner, b)
                && match_opt_exec(&p.arg, &t.arg, b),
            _ => match_opt_exec(&p.inner, &t.inner, b),
        };
    }
    struct_eq(p, t)
}


// --- Walking the tree ------------------------------------------------------------------

/// Every datum of `data[..k]`, in pre-order.
pub open spec fn nodes_range(data: Seq<Node>, k: int) -> Seq<Node>
    decreases data, k,
{
    if k <= 0 || k > data.len() {
        Seq::empty()
    } else {
        nodes_range(data, k - 1) + nodes_in(data[k - 1])
    }
}

pub open spec fn nodes_opt(o: Option<Box<Node>>) -> Seq<Node>
    decreases o, 1int,
{
    match o {
        Some(x) => nodes_in(*x),
        None => Seq::empty(),
    }
}

/// Every datum of the subtree of `n`, in pre-order: `n`, then a list's
/// elements and dotted tail, a reader macro's target and auxiliary datum,
/// the datum of a `#tag` form or label.
pub open spec fn nodes_in(n: Node) -> Seq<Node>
    decreases n, 0int,
{
    seq![n] + match n.shape {
        Shape::List => nodes_range(n.items@, n.items@.len() as int) + nodes_opt(n.tail),
        Shape::Prefixed => nodes_opt(n.inner) + nodes_opt(n.arg),
        Shape::HashLiteral | Shape::Label => nodes_opt(n.inner),
        _ => Seq::empty(),
    }
}

/// Every datum of `data`, in pre-order.
pub open spec fn all_nodes(data: Seq<Node>) -> Seq<Node> {
    nodes_range(data, data.len() as int)
}

fn walk_in<'n>(n: &'n Node, out: &mut Vec<&'n Node>)
    ensures
        extends(old(out)@, final(out)@, nodes_in(*n)),
    decreases *n, 0int,
{
    let ghost o0 = old(out)@;
    out.push(n);
    let ghost o1 = out@;
    assert(extends(o0, o1, seq![*n]));
    match n.shape {
        Shape::List => {
            walk_range(n.items.as_slice(), out);
            let ghost o2 = out@;
            walk_opt(&n.tail, out);
            proof {
                let y = nodes_range(n.items@, n.items@.len() as int);
                let z = nodes_opt(n.tail);
                lemma_extends(o1, o2, out@, y, z);
                lemma_extends(o0, o1, out@, seq![*n], y + z);
                assert(seq![*n] + (y + z) == nodes_in(*n));
            }
        },
        Shape::Prefixed => {
            walk_opt(&n.inner, out);
            let ghost o2 = out@;
            walk_opt(&n.arg, out);
            proof {
                let y = nodes_opt(n.inner);
                let z = nodes_opt(n.arg);
                lemma_extends(o1, o2, out@, y, z);
                lemma_extends(o0, o1, out@, seq![*n], y + z);
                assert(seq![*n] + (y + z) == nodes_in(*n));
            }
        },
        Shape::HashLiteral | Shape::Label => {
            walk_opt(&n.inner, out);
            proof {
                lemma_extends(o0, o1, out@, seq![*n], nodes_opt(n.inner));
            }
        },
        _ => {
            assert(seq![*n] + Seq::<Node>::empty() == seq![*n]);
        },
    }
}

fn walk_opt<'n>(o: &'n Option<Box<Node>>, out: &mut Vec<&'n Node>)
    ensures
        extends(old(out)@, final(out)@, nodes_opt(*o)),
    decreases *o, 1int,
{
    match o {
        Some(x) => walk_in(x, out),
        None => {},
    }
}

fn walk_range<'n>(data: &'n [Node], out: &mut Vec<&'n Node>)
    ensures
        extends(old(out)@, final(out)@, nodes_range(data@, data@.len() as int)),
    decreases data@, 2int,
{
    let ghost o0 = old(out)@;
    let mut k: usize = 0;
    assert(extends(o0, out@, nodes_range(data@, 0)));
    while k < data.len()
        invariant
            k <= data@.len(),
            extends(o0, out@, nodes_range(data@, k as int)),
        decreases data.len() - k,
    {
        let ghost o1 = out@;
        walk_in(&data[k], out);
        proof {
            lemma_extends(o0, o1, out@, nodes_range(data@, k as int), nodes_in(data@[k as int]));
        }
        k = k + 1;
    }
}

/// References to every datum of `data`, in pre-order.
pub(crate) fn walk<'n>(data: &'n [Node]) -> (r: Vec<&'n Node>)
    ensures
        derefs(r@) == all_nodes(data@),
{
    let mut out: Vec<&'n Node> = Vec::new();
    walk_range(data, &mut out);
    proof {
        lemma_extends_empty(out@, all_nodes(data@));
    }
    out
}

// --- Checking a pattern and a template --------------------------------------------------

/// What a datum is as a metavariable (`None` for anything but a
/// metavariable symbol).
pub open spec fn node_mv(n: Node) -> Option<Result<(Option<Seq<char>>, MClass, bool), Seq<char>>> {
    if n.shape == Shape::Symbol {
        metavar_spec(n.key@)
    } else {
        None
    }
}

/// The first malformed metavariable among `ns[..k]`, by its message.
pub open spec fn bad_metavar(ns: Seq<Node>, k: int) -> Option<Seq<char>>
    decreases k,
{
    if k <= 0 || k > ns.len() {
        None
    } else {
        match bad_metavar(ns, k - 1) {
            Some(e) => Some(e),
            None => match node_mv(ns[k - 1]) {
                Some(Err(e)) => Some(e),
                _ => None,
            },
        }
    }
}

/// Whether the last metavariable named `name` among the pattern data
/// `ns[..k]` captures a run (`None` when no metavariable has that name).
pub open spec fn pattern_seq(ns: Seq<Node>, name: Seq<char>, k: int) -> Option<bool>
    decreases k,
{
    if k <= 0 || k > ns.len() {
        None
    } else {
        match node_mv(ns[k - 1]) {
            Some(Ok(m)) if m.0 == Some(name) => Some(m.2),
            _ => pattern_seq(ns, name, k - 1),
        }
    }
}

/// What is wrong with one template datum against the pattern data `ps`.
pub open spec fn template_datum_fault(ps: Seq<Node>, n: Node) -> Option<Seq<char>> {
    match node_mv(n) {
        Some(Ok(m)) => match m.0 {
            None => Some("`$_` is not allowed in a template"@),
            Some(name) => match pattern_seq(ps, name, ps.len() as int) {
                None => Some("template metavariable `$"@ + name + "` is not bound by the pattern"@),
                Some(sq) => if sq != m.2 {
                    Some("metavariable `$"@ + name + "` arity mismatch between pattern and template"@)
                } else {
                    None
                },
            },
        },
        _ => None,
    }
}

/// The first template datum among `ts[..k]` that the pattern data `ps`
/// does not allow: a metavariable the pattern does not bind, one bound as
/// a run in one and as a single form in the other, or the wildcard.
pub open spec fn template_fault(ps: Seq<Node>, ts: Seq<Node>, k: int) -> Option<Seq<char>>
    decreases k,
{
    if k <= 0 || k > ts.len() {
        None
    } else {
        match template_fault(ps, ts, k - 1) {
            Some(e) => Some(e),
            None => template_datum_fault(ps, ts[k - 1]),
        }
    }
}

fn node_mv_exec(n: &Node) -> (r: Option<Result<Metavar, String>>)
    ensures
        parsed_view(r) == node_mv(*n),
{
    if n.shape == Shape::Symbol {
        let k = chars_of(n.key.as_str());
        metavar_of(k.as_slice())
    } else {
        None
    }
}

fn bad_metavar_exec(ns: &Vec<&Node>) -> (r: Option<String>)
    ensures
        match r {
            Some(e) => bad_metavar(derefs(ns@), ns@.len() as int) == Some(e@),
            None => bad_metavar(derefs(ns@), ns@.len() as int) is None,
        },
{
    let ghost d = derefs(ns@);
    let mut k: usize = 0;
    while k < ns.len()
        invariant
            d == derefs(ns@),
            k <= ns@.len(),
            bad_metavar(d, k as int) is None,
        decreases ns.len() - k,
    {
        match node_mv_exec(ns[k]) {
            Some(Err(e)) => {
                proof {
                    lemma_bad_metavar_stays(d, k + 1, ns@.len() as int);
                }
                return Some(e);
            },
            _ => {},
        }
        k = k + 1;
    }
    None
}

proof fn lemma_bad_metavar_stays(ns: Seq<Node>, j: int, k: int)
    requires
        0 < j <= k <= ns.len(),
        bad_metavar(ns, j) is Some,
    ensures
        bad_metavar(ns, k) == bad_metavar(ns, j),
    decreases k - j,
{
    if j < k {
        lemma_bad_metavar_stays(ns, j, k - 1);
    }
}

fn pattern_seq_exec(ps: &Vec<&Node>, name: &[char]) -> (r: Option<bool>)
    ensures
        r == pattern_seq(derefs(ps@), name@, ps@.len() as int),
{
    let ghost d = derefs(ps@);
    let mut k: usize = ps.len();
    while k > 0
        invariant
            d == derefs(ps@),
            k <= ps@.len(),
            pattern_seq(d, name@, ps@.len() as int) == pattern_seq(d, name@, k as int),
        decreases k,
    {
        match node_mv_exec(ps[k - 1]) {
            Some(Ok(m)) => {
                let hit = match &m.name {
                    Some(nm) => {
                        let c = chars_of(nm.as_str());
                        crate::text::seq_eq(c.as_slice(), name)
                    },
                    None => false,
                };
                if hit {
                    return Some(m.seq);
                }
            },
            _ => {},
        }
        k = k - 1;
    }
    None
}

fn msg3(a: &str, name: &[char], b: &str) -> (s: String)
    ensures
        s@ == a@ + name@ + b@,
{
    let mut s = String::from_str(a);
    crate::text::push_chars(&mut s, name);
    let bc = chars_of(b);
    crate::text::push_chars(&mut s, bc.as_slice());
    s
}

fn template_fault_exec(ps: &Vec<&Node>, ts: &Vec<&Node>) -> (r: Option<String>)
    ensures
        match r {
            Some(e) => template_fault(derefs(ps@), derefs(ts@), ts@.len() as int) == Some(e@),
            None => template_fault(derefs(ps@), derefs(ts@), ts@.len() as int) is None,
        },
{
    proof {
        reveal_strlit("`$_` is not allowed in a template");
        reveal_strlit("template metavariable `$");
        reveal_strlit("` is not bound by the pattern");
        reveal_strlit("metavariable `$");
        reveal_strlit("` arity mismatch between pattern and template");
    }
    let ghost dp = derefs(ps@);
    let ghost dt = derefs(ts@);
    let mut k: usize = 0;
    while k < ts.len()
        invariant
            dp == derefs(ps@),
            dt == derefs(ts@),
            k <= ts@.len(),
            template_fault(dp, dt, k as int) is None,
        decreases ts.len() - k,
    {
        let f: Option<String> = match node_mv_exec(ts[k]) {
            Some(Ok(m)) => match &m.name {
                None => Some(String::from_str("`$_` is not allowed in a template")),
                Some(nm) => {
                    let c = chars_of(nm.as_str());
                    match pattern_seq_exec(ps, c.as_slice()) {
                        None => Some(msg3("template metavariable `$", c.as_slice(), "` is not bound by the pattern")),
                        Some(sq) => if sq != m.seq {
                            Some(msg3("metavariable `$", c.as_slice(), "` arity mismatch between pattern and template"))
                        } else {
                            None
                        },
                    }
                },
            },
            _ => None,
        };
        match f {
            Some(e) => {
                assert(template_datum_fault(dp, dt[k as int]) == Some(e@));
                proof {
                    lemma_template_fault_stays(dp, dt, k + 1, ts@.len() as int);
                }
                return Some(e);
            },
            None => {
                assert(template_datum_fault(dp, dt[k as int]) is None);
            },
        }
        k = k + 1;
    }
    None
}

proof fn lemma_template_fault_stays(ps: Seq<Node>, ts: Seq<Node>, j: int, k: int)
    requires
        0 < j <= k <= ts.len(),
        template_fault(ps, ts, j) is Some,
    ensures
        template_fault(ps, ts, k) == template_fault(ps, ts, j),
    decreases k - j,
{
    if j < k {
        lemma_template_fault_stays(ps, ts, j, k - 1);
    }
}

// --- Finding the sites -------------------------------------------------------------------

/// The data among `ns[..k]` that `pat` matches, in order.
pub open spec fn hits_upto(pat: Node, ns: Seq<Node>, k: int) -> Seq<Node>
    decreases k,
{
    if k <= 0 || k > ns.len() {
        Seq::empty()
    } else if pmatch(pat, ns[k - 1], Seq::empty()) is Some {
        hits_upto(pat, ns, k - 1).push(ns[k - 1])
    } else {
        hits_upto(pat, ns, k - 1)
    }
}

fn hits_exec<'n>(pat: &Node, ns: &Vec<&'n Node>) -> (r: Vec<&'n Node>)
    ensures
        derefs(r@) == hits_upto(*pat, derefs(ns@), ns@.len() as int),
{
    let ghost d = derefs(ns@);
    let mut r: Vec<&'n Node> = Vec::new();
    let mut k: usize = 0;
    while k < ns.len()
        invariant
            d == derefs(ns@),
            k <= ns@.len(),
            derefs(r@) == hits_upto(*pat, d, k as int),
        decreases ns.len() - k,
    {
        let mut b: Vec<Bound<'n>> = Vec::new();
        assert(binds_view(b@) =~= Seq::<(Seq<char>, (bool, Seq<Node>))>::empty());
        if try_match(pat, ns[k], &mut b) {
            let ghost r0 = r@;
            r.push(ns[k]);
            assert(derefs(r@) =~= derefs(r0).push(d[k as int]));
        }
        k = k + 1;
    }
    r
}


// --- Expanding the template --------------------------------------------------------------

/// The source text a capture stands for: a single form's text, or a run's
/// text from its first form's start to its last form's end (empty for an
/// empty run).
pub open spec fn cap_text(src: Seq<char>, cap: (bool, Seq<Node>)) -> Seq<char> {
    if cap.1.len() == 0 {
        Seq::empty()
    } else if !cap.0 {
        seg(src, cap.1[0].start as int, cap.1[0].end as int)
    } else {
        seg(src, cap.1[0].start as int, cap.1.last().end as int)
    }
}

/// What one template datum contributes, given the captures `b` of a site
/// in `src`: a metavariable is replaced by its capture's text and `$$x` by
/// `$x` (edits of the template text `tsrc`); the wildcard, a metavariable
/// the site did not capture, or one captured as the other kind of
/// capture, is an error.
pub open spec fn template_edit(tsrc: Seq<char>, src: Seq<char>, b: Seq<(Seq<char>, (bool, Seq<Node>))>, n: Node) -> Option<Result<EditT, Seq<char>>> {
    match node_mv(n) {
        Some(Ok(m)) => match m.0 {
            None => Some(Err("`$_` is not allowed in a template"@)),
            Some(name) => match lookup(b, name) {
                None => Some(Err("template metavariable `$"@ + name + "` is not bound"@)),
                Some(cap) => if cap.0 == m.2 {
                    Some(Ok(et(tsrc, n.start as int, n.end as int, cap_text(src, cap))))
                } else {
                    Some(Err("metavariable `$"@ + name + "` arity mismatch"@))
                },
            },
        },
        Some(Err(e)) => Some(Err(e)),
        None => if n.shape == Shape::Symbol && unescape(n.key@) != n.key@ {
            Some(Ok(et(tsrc, n.start as int, n.end as int, unescape(n.key@))))
        } else {
            None
        },
    }
}

/// The edits of the template data `tns[..k]`, or the first error.
pub open spec fn template_edits(tsrc: Seq<char>, src: Seq<char>, b: Seq<(Seq<char>, (bool, Seq<Node>))>, tns: Seq<Node>, k: int) -> Result<Seq<EditT>, Seq<char>>
    decreases k,
{
    if k <= 0 || k > tns.len() {
        Ok(Seq::empty())
    } else {
        match template_edits(tsrc, src, b, tns, k - 1) {
            Err(e) => Err(e),
            Ok(es) => match template_edit(tsrc, src, b, tns[k - 1]) {
                None => Ok(es),
                Some(Ok(e)) => Ok(es.push(e)),
                Some(Err(e)) => Err(e),
            },
        }
    }
}

/// What the template `tsrc`, read as the data `tns` (all of them, in
/// pre-order), expands to for a site of `src` with captures `b`: the
/// template text with its edits spliced in, trimmed; `Err(Ok(message))`
/// when a datum cannot expand; `Err(Err(e))` when the edits do not splice.
pub open spec fn expands_to(tsrc: Seq<char>, src: Seq<char>, b: Seq<(Seq<char>, (bool, Seq<Node>))>, tns: Seq<Node>, out: Result<Seq<char>, Result<Seq<char>, SpliceError>>) -> bool {
    match template_edits(tsrc, src, b, tns, tns.len() as int) {
        Err(e) => out == Err::<Seq<char>, Result<Seq<char>, SpliceError>>(Ok(e)),
        Ok(ts) => exists|es: Seq<Edit>|
            #[trigger] edits_are(es, ts) && match splice_spec(encode_utf8(tsrc), es) {
                Ok(bytes) => out == Ok::<Seq<char>, Result<Seq<char>, SpliceError>>(trim(decode_utf8(bytes))),
                Err(x) => out == Err::<Seq<char>, Result<Seq<char>, SpliceError>>(Err(x)),
            },
    }
}

pub open spec fn expansion_view(r: Result<String, Result<String, SpliceError>>) -> Result<Seq<char>, Result<Seq<char>, SpliceError>> {
    match r {
        Ok(s) => Ok(s@),
        Err(Ok(e)) => Err(Ok(e@)),
        Err(Err(x)) => Err(Err(x)),
    }
}

fn cap_text_exec<'t>(src: &[char], x: &Bound<'t>) -> (s: String)
    ensures
        s@ == cap_text(src@, bound_view(*x).1),
{
    let n = x.nodes.len();
    if n == 0 {
        return String::new();
    }
    if !x.many {
        seg_string(src, x.nodes[0].start, x.nodes[0].end)
    } else {
        seg_string(src, x.nodes[0].start, x.nodes[n - 1].end)
    }
}

proof fn lemma_template_edits_err(tsrc: Seq<char>, src: Seq<char>, b: Seq<(Seq<char>, (bool, Seq<Node>))>, tns: Seq<Node>, j: int, k: int)
    requires
        0 < j <= k <= tns.len(),
        template_edits(tsrc, src, b, tns, j) is Err,
    ensures
        template_edits(tsrc, src, b, tns, k) == template_edits(tsrc, src, b, tns, j),
    decreases k - j,
{
    if j < k {
        lemma_template_edits_err(tsrc, src, b, tns, j, k - 1);
    }
}

proof fn lemma_expands(tsrc: Seq<char>, src: Seq<char>, b: Seq<(Seq<char>, (bool, Seq<Node>))>, tns: Seq<Node>, want: Seq<EditT>, es: Seq<Edit>, out: Result<Seq<char>, Result<Seq<char>, SpliceError>>)
    requires
        template_edits(tsrc, src, b, tns, tns.len() as int) == Ok::<Seq<EditT>, Seq<char>>(want),
        edits_are(es, want),
        match splice_spec(encode_utf8(tsrc), es) {
            Ok(bytes) => out == Ok::<Seq<char>, Result<Seq<char>, SpliceError>>(trim(decode_utf8(bytes))),
            Err(x) => out == Err::<Seq<char>, Result<Seq<char>, SpliceError>>(Err(x)),
        },
    ensures
        expands_to(tsrc, src, b, tns, out),
{
    let ts = template_edits(tsrc, src, b, tns, tns.len() as int)->Ok_0;
    assert(ts == want);
    assert(edits_are(es, ts));
    assert(exists|e2: Seq<Edit>|
        #[trigger] edits_are(e2, ts) && match splice_spec(encode_utf8(tsrc), e2) {
            Ok(bytes) => out == Ok::<Seq<char>, Result<Seq<char>, SpliceError>>(trim(decode_utf8(bytes))),
            Err(x) => out == Err::<Seq<char>, Result<Seq<char>, SpliceError>>(Err(x)),
        });
}

/// Expand the template for one site (see [`expands_to`]).
fn expand<'t>(tcs: &[char], tbt: &Vec<usize>, ttext: &str, tns: &Vec<&Node>, src: &[char], b: &Vec<Bound<'t>>) -> (r: Result<String, Result<String, SpliceError>>)
    requires
        byte_table_of(tcs@, tbt@),
        tcs@ == ttext@,
    ensures
        expands_to(tcs@, src@, binds_view(b@), derefs(tns@), expansion_view(r)),
{
    proof {
        reveal_strlit("`$_` is not allowed in a template");
        reveal_strlit("template metavariable `$");
        reveal_strlit("` is not bound");
        reveal_strlit("metavariable `$");
        reveal_strlit("` arity mismatch");
    }
    let ghost bv = binds_view(b@);
    let ghost d = derefs(tns@);
    let mut edits: Vec<Edit> = Vec::new();
    let ghost mut want: Seq<EditT> = Seq::empty();
    let mut k: usize = 0;
    while k < tns.len()
        invariant
            byte_table_of(tcs@, tbt@),
            bv == binds_view(b@),
            d == derefs(tns@),
            k <= tns@.len(),
            template_edits(tcs@, src@, bv, d, k as int) == Ok::<Seq<EditT>, Seq<char>>(want),
            edits_are(edits@, want),
        decreases tns.len() - k,
    {
        let n = tns[k];
        let step: Option<Result<Edit, String>> = match node_mv_exec(n) {
            Some(Ok(m)) => match &m.name {
                None => Some(Err(String::from_str("`$_` is not allowed in a template"))),
                Some(nm) => {
                    let c = chars_of(nm.as_str());
                    match find_bound(b, c.as_slice()) {
                        None => Some(Err(msg3("template metavariable `$", c.as_slice(), "` is not bound"))),
                        Some(i) => {
                            if b[i].many == m.seq {
                                let t = cap_text_exec(src, &b[i]);
                                Some(Ok(edit_at(tcs, tbt, n.start, n.end, t)))
                            } else {
                                Some(Err(msg3("metavariable `$", c.as_slice(), "` arity mismatch")))
                            }
                        },
                    }
                },
            },
            Some(Err(e)) => Some(Err(e)),
            None => {
                if n.shape == Shape::Symbol {
                    let kc = chars_of(n.key.as_str());
                    if kc.len() >= 2 && kc[0] == '$' && kc[1] == '$' {
                        let lit = string_of_range(kc.as_slice(), 1, kc.len());
                        Some(Ok(edit_at(tcs, tbt, n.start, n.end, lit)))
                    } else {
                        None
                    }
                } else {
                    None
                }
            },
        };
        match step {
            Some(Err(e)) => {
                assert(template_edit(tcs@, src@, bv, d[k as int]) == Some(Err::<EditT, Seq<char>>(e@)));
                proof {
                    lemma_template_edits_err(tcs@, src@, bv, d, k + 1, tns@.len() as int);
                }
                return Err(Ok(e));
            },
            Some(Ok(e)) => {
                let ghost te = template_edit(tcs@, src@, bv, d[k as int])->0->Ok_0;
                assert(crate::structural::edit_is(e, te));
                let ghost e0 = edits@;
                edits.push(e);
                proof {
                    want = want.push(te);
                    assert forall|q: int| 0 <= q < edits@.len() implies crate::structural::edit_is(#[trigger] edits@[q], want[q]) by {
                        if q < e0.len() {
                            assert(edits@[q] == e0[q]);
                        }
                    }
                }
            },
            None => {
                assert(template_edit(tcs@, src@, bv, d[k as int]) is None);
            },
        }
        k = k + 1;
    }
    let ghost es = edits@;
    assert(d.len() == tns@.len());
    assert(template_edits(tcs@, src@, bv, d, d.len() as int) == Ok::<Seq<EditT>, Seq<char>>(want));
    assert(edits_are(es, want));
    match splice(ttext, edits) {
        Ok(out) => {
            let oc = chars_of(out.as_str());
            let tr = crate::text::trimmed(oc.as_slice(), 0, oc.len());
            let r = string_of(tr.as_slice());
            proof {
                vstd::utf8::encode_utf8_decode_utf8(out@);
                assert(oc@.subrange(0, oc@.len() as int) == oc@);
                assert(splice_spec(encode_utf8(tcs@), es) == Ok::<Seq<u8>, SpliceError>(encode_utf8(out@)));
                vstd::utf8::encode_utf8_valid_utf8(out@);
                assert(r@ == trim(decode_utf8(encode_utf8(out@))));
            }
            let res: Result<String, Result<String, SpliceError>> = Ok(r);
            proof {
                lemma_expands(tcs@, src@, bv, d, want, es, expansion_view(res));
            }
            res
        },
        Err(x) => {
            assert(splice_spec(encode_utf8(tcs@), es) == Err::<Seq<u8>, SpliceError>(x));
            let res: Result<String, Result<String, SpliceError>> = Err(Err(x));
            proof {
                lemma_expands(tcs@, src@, bv, d, want, es, expansion_view(res));
            }
            res
        },
    }
}


// --- Planning a rewrite ---------------------------------------------------------------------

/// A rewrite request: an optional drift hash the file must still have, the
/// pattern's text and the template's text.
pub struct RewriteSpec {
    pub hash: Option<String>,
    pub pattern_text: String,
    pub template_text: String,
}

/// The result of a successful rewrite.
#[derive(Debug)]
pub struct RewriteOutcome {
    /// How many sites were rewritten (0 is a valid, idempotent outcome).
    pub rewritten: usize,
    /// The file hash after the rewrite, over the reindented content.
    pub new_file_hash: String,
}

/// Why a rewrite was refused. No partial write ever happens on an error.
#[derive(Debug)]
pub enum RewriteError {
    /// The request could not be used (missing `pattern`/`template` block,
    /// unterminated heredoc, a pattern or template that does not parse, a
    /// malformed or unbound metavariable, …). Carries a message.
    Spec(String),
    /// The drift hash was given and did not match the file.
    Drift { expected: String, actual: String },
    /// The edits could not be spliced.
    Splice(SpliceError),
    /// The safe write was refused.
    Write(WriteError),
    /// A filesystem error.
    Io(std::io::Error),
}

/// A rewrite's new content, before any reindent, with how many sites it
/// rewrote and where their new text lies.
pub struct RewritePlan {
    pub content: String,
    pub rewritten: usize,
    pub spans: Vec<std::ops::Range<usize>>,
}

/// The captures of `pat` matched against the site `t` from scratch.
pub open spec fn site_binds(pat: Node, t: Node) -> Seq<(Seq<char>, (bool, Seq<Node>))> {
    match pmatch(pat, t, Seq::empty()) {
        Some(b) => b,
        None => Seq::empty(),
    }
}

/// The sites a rewrite replaces: of every datum of `forms` that `pat`
/// matches, the outermost ones, in source order (a match starting inside
/// an earlier kept one is left for a later run).
pub open spec fn kept_sites(pat: Node, forms: Seq<Node>) -> Seq<Node> {
    let ns = all_nodes(forms);
    let h = hits_upto(pat, ns, ns.len() as int);
    let kept = keep_outer(h, sort_calls(h, all_idx(h.len() as int)), h.len() as int).0;
    Seq::new(kept.len(), |i: int| h[kept[i] as int])
}

/// Whether the first `outs.len()` sites `ks` expand to `outs`.
pub open spec fn expansions_ok(src: Seq<char>, tsrc: Seq<char>, tns: Seq<Node>, pat: Node, ks: Seq<Node>, outs: Seq<Seq<char>>) -> bool {
    &&& outs.len() <= ks.len()
    &&& forall|i: int|
        0 <= i < outs.len() ==> #[trigger] expands_to(
            tsrc,
            src,
            site_binds(pat, ks[i]),
            tns,
            Ok::<Seq<char>, Result<Seq<char>, SpliceError>>(outs[i]),
        )
}

/// The edits replacing each of the sites `ks` with its expansion.
pub open spec fn site_edits(src: Seq<char>, ks: Seq<Node>, outs: Seq<Seq<char>>) -> Seq<EditT> {
    Seq::new(outs.len(), |i: int| et(src, ks[i].start as int, ks[i].end as int, outs[i]))
}

/// What replacing the sites `ks` of `src` gives: the first site whose
/// template does not expand refuses the rewrite; otherwise every site is
/// replaced by its expansion in one splice.
pub open spec fn sites_rewritten(src: Seq<char>, tsrc: Seq<char>, tns: Seq<Node>, pat: Node, ks: Seq<Node>, r: Result<RewritePlan, RewriteError>) -> bool {
    exists|outs: Seq<Seq<char>>|
        #[trigger] expansions_ok(src, tsrc, tns, pat, ks, outs) && if outs.len() < ks.len() {
            exists|f: Result<Seq<char>, Result<Seq<char>, SpliceError>>|
                #[trigger] expands_to(tsrc, src, site_binds(pat, ks[outs.len() as int]), tns, f) && match f {
                    Err(Ok(e)) => r matches Err(RewriteError::Spec(m)) && m@ == e,
                    Err(Err(x)) => r matches Err(RewriteError::Splice(y)) && y == x,
                    Ok(_) => false,
                }
        } else {
            exists|es: Seq<Edit>|
                #[trigger] edits_are(es, site_edits(src, ks, outs)) && match r {
                    Ok(p) => splice_spec(encode_utf8(src), es) == Ok::<Seq<u8>, SpliceError>(encode_utf8(p.content@))
                        && p.rewritten == es.len() && ranges_are(p.spans@, all_landed(es)),
                    Err(RewriteError::Splice(x)) => splice_spec(encode_utf8(src), es) == Err::<Seq<u8>, SpliceError>(x),
                    _ => false,
                }
        }
}

/// Whether `r` refuses the request with the message `m`.
pub open spec fn refused(r: Result<RewritePlan, RewriteError>, m: Seq<char>) -> bool {
    r matches Err(RewriteError::Spec(s)) && s@ == m
}

/// What a rewrite of `src` gives once the pattern text `ptext`, the
/// template text `ttext` and the file (as the dialect named `dn` reads
/// them) are the data `pforms`, `tforms` and `forms`.
pub open spec fn rewrite_read(src: Seq<char>, ptext: Seq<char>, ttext: Seq<char>, dn: Seq<char>, pforms: Seq<Node>, tforms: Seq<Node>, forms: Seq<Node>, r: Result<RewritePlan, RewriteError>) -> bool {
    let pns = all_nodes(pforms);
    let tns = all_nodes(tforms);
    if first_fault(ptext, dn) is Some {
        refused(r, "pattern does not parse"@)
    } else if pforms.len() == 0 {
        refused(r, "pattern is empty"@)
    } else if pforms.len() > 1 {
        refused(r, "pattern must be a single form"@)
    } else if first_fault(ttext, dn) is Some {
        refused(r, "template does not parse"@)
    } else if bad_metavar(pns, pns.len() as int) is Some {
        refused(r, bad_metavar(pns, pns.len() as int)->0)
    } else if bad_metavar(tns, tns.len() as int) is Some {
        refused(r, bad_metavar(tns, tns.len() as int)->0)
    } else if template_fault(pns, tns, tns.len() as int) is Some {
        refused(r, template_fault(pns, tns, tns.len() as int)->0)
    } else {
        let ks = kept_sites(pforms[0], forms);
        if ks.len() == 0 {
            r matches Ok(p) && p.content@ == src && p.rewritten == 0 && p.spans@.len() == 0
        } else {
            sites_rewritten(src, ttext, tns, pforms[0], ks, r)
        }
    }
}

/// What rewriting `src` by `spec` in `dialect` gives.
pub open spec fn rewrite_outcome(src: Seq<char>, spec: RewriteSpec, dialect: Dialect, r: Result<RewritePlan, RewriteError>) -> bool {
    match spec.hash {
        Some(h) if file_hash_spec(encode_utf8(src)) != h@ => r matches Err(RewriteError::Drift { expected, actual })
            && expected@ == h@ && actual@ == file_hash_spec(encode_utf8(src)),
        _ => exists|pforms: Seq<Node>, tforms: Seq<Node>, forms: Seq<Node>|
            reads_as(spec.pattern_text@, dialect_name_spec(dialect), false, pforms)
                && reads_as(spec.template_text@, dialect_name_spec(dialect), false, tforms)
                && reads_as(src, dialect_name_spec(dialect), false, forms)
                && #[trigger] rewrite_read(
                src,
                spec.pattern_text@,
                spec.template_text@,
                dialect_name_spec(dialect),
                pforms,
                tforms,
                forms,
                r,
            ),
    }
}

proof fn lemma_hits_match(pat: Node, ns: Seq<Node>, k: int)
    requires
        0 <= k <= ns.len(),
    ensures
        forall|i: int| 0 <= i < hits_upto(pat, ns, k).len() ==> pmatch(pat, #[trigger] hits_upto(pat, ns, k)[i], Seq::empty()) is Some,
    decreases k,
{
    if k > 0 {
        lemma_hits_match(pat, ns, k - 1);
    }
}

fn refuse(m: &str) -> (r: Result<RewritePlan, RewriteError>)
    ensures
        refused(r, m@),
{
    Err(RewriteError::Spec(String::from_str(m)))
}

/// Plan a structural rewrite of `source` (read as `dialect`): unless the
/// drift hash is given and differs, read the pattern (exactly one form)
/// and the template, reject malformed metavariables and template
/// metavariables the pattern does not bind as used, match the pattern
/// against every datum of the file, keep the outermost matches, and
/// replace each with the template expanded by its captures. No match is a
/// success that leaves the content as it is.
pub fn plan_rewrite(source: &str, spec: &RewriteSpec, dialect: Dialect) -> (r: Result<RewritePlan, RewriteError>)
    ensures
        rewrite_outcome(source@, *spec, dialect, r),
{
    proof {
        reveal_strlit("pattern does not parse");
        reveal_strlit("pattern is empty");
        reveal_strlit("pattern must be a single form");
        reveal_strlit("template does not parse");
    }
    match &spec.hash {
        Some(want) => {
            let actual = file_hash(source.as_bytes());
            let ac = chars_of(actual.as_str());
            let wc = chars_of(want.as_str());
            if !crate::text::seq_eq(ac.as_slice(), wc.as_slice()) {
                return Err(RewriteError::Drift { expected: String::from_str(want.as_str()), actual });
            }
        },
        None => {},
    }
    let dn = dialect_name(dialect);
    let ptext = spec.pattern_text.as_str();
    let ttext = spec.template_text.as_str();
    let pforms = read(ptext, dialect, false);
    let tforms = read(ttext, dialect, false);
    let forms = read(source, dialect, false);
    let ghost pf = pforms@;
    let ghost tf = tforms@;
    let ghost fs = forms@;
    let ghost dns = dialect_name_spec(dialect);
    if lx_first_fault(ptext, dn).is_some() {
        let r = refuse("pattern does not parse");
        assert(rewrite_read(source@, ptext@, ttext@, dns, pf, tf, fs, r));
        return r;
    }
    if pforms.len() == 0 {
        let r = refuse("pattern is empty");
        assert(rewrite_read(source@, ptext@, ttext@, dns, pf, tf, fs, r));
        return r;
    }
    if pforms.len() > 1 {
        let r = refuse("pattern must be a single form");
        assert(rewrite_read(source@, ptext@, ttext@, dns, pf, tf, fs, r));
        return r;
    }
    if lx_first_fault(ttext, dn).is_some() {
        let r = refuse("template does not parse");
        assert(rewrite_read(source@, ptext@, ttext@, dns, pf, tf, fs, r));
        return r;
    }
    let pns = walk(pforms.as_slice());
    let tns = walk(tforms.as_slice());
    match bad_metavar_exec(&pns) {
        Some(e) => {
            let r = Err(RewriteError::Spec(e));
            assert(rewrite_read(source@, ptext@, ttext@, dns, pf, tf, fs, r));
            return r;
        },
        None => {},
    }
    match bad_metavar_exec(&tns) {
        Some(e) => {
            let r = Err(RewriteError::Spec(e));
            assert(rewrite_read(source@, ptext@, ttext@, dns, pf, tf, fs, r));
            return r;
        },
        None => {},
    }
    match template_fault_exec(&pns, &tns) {
        Some(e) => {
            let r = Err(RewriteError::Spec(e));
            assert(rewrite_read(source@, ptext@, ttext@, dns, pf, tf, fs, r));
            return r;
        },
        None => {},
    }
    let pat = &pforms[0];
    let all = walk(forms.as_slice());
    let hits = hits_exec(pat, &all);
    let order = sort_calls_exec(&hits);
    let kept = keep_outer_exec(&hits, &order);
    let ghost h = derefs(hits@);
    let ghost ks = kept_sites(*pat, fs);
    assert(ks.len() == kept@.len());
    if kept.len() == 0 {
        let r = Ok(RewritePlan { content: String::from_str(source), rewritten: 0, spans: Vec::new() });
        assert(rewrite_read(source@, ptext@, ttext@, dns, pf, tf, fs, r));
        return r;
    }
    proof {
        lemma_hits_match(*pat, all_nodes(fs), all_nodes(fs).len() as int);
    }
    let scs = chars_of(source);
    let sbt = byte_table(scs.as_slice());
    let tcs = chars_of(ttext);
    let tbt = byte_table(tcs.as_slice());
    assert(byte_table_of(scs@, sbt@));
    assert(byte_table_of(tcs@, tbt@));
    let ghost tnv = derefs(tns@);
    let mut edits: Vec<Edit> = Vec::new();
    let ghost mut outs: Seq<Seq<char>> = Seq::empty();
    let mut k: usize = 0;
    while k < kept.len()
        invariant
            byte_table_of(scs@, sbt@),
            byte_table_of(tcs@, tbt@),
            scs@ == source@,
            tcs@ == ttext@,
            tnv == derefs(tns@),
            h == derefs(hits@),
            ks == Seq::new(kept@.len(), |i: int| h[kept@[i] as int]),
            forall|q: int| 0 <= q < kept@.len() ==> kept@[q] < hits@.len(),
            forall|i: int| 0 <= i < h.len() ==> pmatch(*pat, #[trigger] h[i], Seq::empty()) is Some,
            k <= kept@.len(),
            ptext@ == spec.pattern_text@,
            ttext@ == spec.template_text@,
            dns == dialect_name_spec(dialect),
            match spec.hash {
                Some(hh) => file_hash_spec(encode_utf8(source@)) == hh@,
                None => true,
            },
            first_fault(ptext@, dns) is None,
            first_fault(ttext@, dns) is None,
            pf.len() == 1,
            *pat == pf[0],
            tnv == all_nodes(tf),
            bad_metavar(all_nodes(pf), all_nodes(pf).len() as int) is None,
            bad_metavar(tnv, tnv.len() as int) is None,
            template_fault(all_nodes(pf), tnv, tnv.len() as int) is None,
            ks == kept_sites(pf[0], fs),
            reads_as(spec.pattern_text@, dns, false, pf),
            reads_as(spec.template_text@, dns, false, tf),
            reads_as(source@, dns, false, fs),
            ks.len() > 0,
            outs.len() == k,
            expansions_ok(source@, ttext@, tnv, *pat, ks, outs),
            edits_are(edits@, site_edits(source@, ks, outs)),
        decreases kept.len() - k,
    {
        let t = hits[kept[k]];
        assert(*t == ks[k as int]);
        assert(pmatch(*pat, h[kept@[k as int] as int], Seq::empty()) is Some);
        let mut b: Vec<Bound> = Vec::new();
        assert(binds_view(b@) =~= Seq::<(Seq<char>, (bool, Seq<Node>))>::empty());
        let matched = try_match(pat, t, &mut b);
        assert(matched);
        assert(binds_view(b@) == site_binds(*pat, *t));
        let x = expand(tcs.as_slice(), &tbt, ttext, &tns, scs.as_slice(), &b);
        match x {
            Ok(text) => {
                let ghost tv = text@;
                let e = edit_at(scs.as_slice(), &sbt, t.start, t.end, text);
                let ghost e0 = edits@;
                let ghost o0 = outs;
                edits.push(e);
                proof {
                    outs = outs.push(tv);
                    assert forall|i: int| 0 <= i < outs.len() implies #[trigger] expands_to(
                        ttext@,
                        source@,
                        site_binds(*pat, ks[i]),
                        tnv,
                        Ok::<Seq<char>, Result<Seq<char>, SpliceError>>(outs[i]),
                    ) by {
                        if i < o0.len() {
                            assert(outs[i] == o0[i]);
                        }
                    }
                    let want = site_edits(source@, ks, outs);
                    assert forall|q: int| 0 <= q < edits@.len() implies crate::structural::edit_is(#[trigger] edits@[q], want[q]) by {
                        if q < e0.len() {
                            assert(edits@[q] == e0[q]);
                            assert(want[q] == site_edits(source@, ks, o0)[q]);
                        }
                    }
                }
            },
            Err(Ok(m)) => {
                let r = Err(RewriteError::Spec(m));
                proof {
                    assert(expands_to(ttext@, source@, site_binds(*pat, ks[outs.len() as int]), tnv, expansion_view(x)));
                    assert(sites_rewritten(source@, ttext@, tnv, *pat, ks, r));
                }
                assert(rewrite_read(source@, ptext@, ttext@, dns, pf, tf, fs, r));
                return r;
            },
            Err(Err(y)) => {
                let r = Err(RewriteError::Splice(y));
                proof {
                    assert(expands_to(ttext@, source@, site_binds(*pat, ks[outs.len() as int]), tnv, expansion_view(x)));
                    assert(sites_rewritten(source@, ttext@, tnv, *pat, ks, r));
                }
                assert(rewrite_read(source@, ptext@, ttext@, dns, pf, tf, fs, r));
                return r;
            },
        }
        k = k + 1;
    }
    let rewritten = edits.len();
    let spans = landed_spans(&edits);
    let ghost es = edits@;
    let r = match splice(source, edits) {
        Ok(content) => Ok(RewritePlan { content, rewritten, spans }),
        Err(y) => Err(RewriteError::Splice(y)),
    };
    proof {
        if r is Ok {
            assert(ranges_are(r->Ok_0.spans@, all_landed(es)));
        }
        assert(sites_rewritten(source@, ttext@, tnv, *pat, ks, r));
    }
    assert(rewrite_read(source@, ptext@, ttext@, dns, pf, tf, fs, r));
    r
}


// --- Reading a request ------------------------------------------------------------------

/// The first line at or after `i` that is not blank (or `ls.len()`).
pub open spec fn skip_blank(ls: Seq<Seq<char>>, i: int) -> int
    decreases ls.len() - i,
{
    if i < 0 || i >= ls.len() {
        i
    } else if trim(ls[i]).len() == 0 {
        skip_blank(ls, i + 1)
    } else {
        i
    }
}

/// The tag of a heredoc header `keyword <<TAG`.
pub open spec fn heredoc_tag(header: Seq<char>, kw: Seq<char>) -> Option<Seq<char>> {
    if !has_prefix_at(header, 0, kw) {
        None
    } else {
        let rest = header.subrange(kw.len() as int, header.len() as int);
        let r = rest.subrange(skip_ws(rest, 0), rest.len() as int);
        if !has_prefix_at(r, 0, "<<"@) {
            None
        } else {
            let t = trim(r.subrange(2, r.len() as int));
            if t.len() == 0 {
                None
            } else {
                Some(t)
            }
        }
    }
}

/// The first line at or after `i` that is exactly `tag` (or `ls.len()`).
pub open spec fn find_line(ls: Seq<Seq<char>>, tag: Seq<char>, i: int) -> int
    decreases ls.len() - i,
{
    if i < 0 || i >= ls.len() {
        ls.len() as int
    } else if ls[i] == tag {
        i
    } else {
        find_line(ls, tag, i + 1)
    }
}

/// `ls` joined with newlines.
pub open spec fn join_lines(ls: Seq<Seq<char>>) -> Seq<char>
    decreases ls.len(),
{
    if ls.len() == 0 {
        Seq::empty()
    } else if ls.len() == 1 {
        ls[0]
    } else {
        join_lines(ls.drop_last()) + "\n"@ + ls.last()
    }
}

/// The heredoc block `keyword <<TAG` … `TAG` at or after the blank lines
/// from line `i`: its body and the line after it, or why there is none.
pub open spec fn read_block_spec(ls: Seq<Seq<char>>, i: int, kw: Seq<char>) -> Result<(Seq<char>, int), Seq<char>> {
    let j = skip_blank(ls, i);
    if j >= ls.len() {
        Err("missing `"@ + kw + " <<TAG` block"@)
    } else {
        let header = trim(ls[j]);
        match heredoc_tag(header, kw) {
            None => Err("expected `"@ + kw + " <<TAG`, got `"@ + header + "`"@),
            Some(tag) => {
                let m = find_line(ls, tag, j + 1);
                if m >= ls.len() {
                    Err("unterminated heredoc `"@ + tag + "`"@)
                } else {
                    Ok((join_lines(ls.subrange(j + 1, m)), m + 1))
                }
            },
        }
    }
}

/// A request's parts: after blank lines, an optional `@ <hash>` line, then
/// a `pattern <<TAG` block and a `template <<TAG` block, each ending at a
/// line that is exactly its tag.
pub open spec fn request_spec(input: Seq<char>) -> Result<(Option<Seq<char>>, Seq<char>, Seq<char>), Seq<char>> {
    let ls = rust_lines(input);
    let i0 = skip_blank(ls, 0);
    let at = i0 < ls.len() && trim(ls[i0]).len() > 0 && trim(ls[i0])[0] == '@';
    let hash = if at {
        Some(trim(trim(ls[i0]).subrange(1, trim(ls[i0]).len() as int)))
    } else {
        None
    };
    let i1 = if at {
        i0 + 1
    } else {
        i0
    };
    match read_block_spec(ls, i1, "pattern"@) {
        Err(e) => Err(e),
        Ok((pt, i2)) => match read_block_spec(ls, i2, "template"@) {
            Err(e) => Err(e),
            Ok((tt, _)) => Ok((hash, pt, tt)),
        },
    }
}

pub open spec fn lines_are(lines: Seq<Vec<char>>, ls: Seq<Seq<char>>) -> bool {
    &&& lines.len() == ls.len()
    &&& forall|k: int| 0 <= k < ls.len() ==> (#[trigger] lines[k])@ == ls[k]
}

fn skip_blank_exec(lines: &Vec<Vec<char>>, i: usize, ls: Ghost<Seq<Seq<char>>>) -> (j: usize)
    requires
        lines_are(lines@, ls@),
        i <= lines@.len(),
    ensures
        j == skip_blank(ls@, i as int),
        i <= j <= lines@.len(),
{
    let mut j = i;
    while j < lines.len() && word_bounds(lines[j].as_slice()).is_none()
        invariant
            lines_are(lines@, ls@),
            i <= j <= lines@.len(),
            skip_blank(ls@, j as int) == skip_blank(ls@, i as int),
        decreases lines.len() - j,
    {
        j = j + 1;
    }
    j
}

fn heredoc_tag_exec(header: &[char], kw: &str) -> (r: Option<Vec<char>>)
    ensures
        match r {
            Some(t) => heredoc_tag(header@, kw@) == Some(t@),
            None => heredoc_tag(header@, kw@) is None,
        },
{
    let kc = chars_of(kw);
    if !starts_with_at(header, 0, kc.as_slice()) {
        return None;
    }
    let rest = slice_range(header, kc.len(), header.len());
    let mut p: usize = 0;
    while p < rest.len() && crate::text::is_whitespace(rest[p])
        invariant
            p <= rest@.len(),
            skip_ws(rest@, p as int) == skip_ws(rest@, 0),
        decreases rest.len() - p,
    {
        p = p + 1;
    }
    let r = slice_range(rest.as_slice(), p, rest.len());
    let lt = chars_of("<<");
    proof {
        reveal_strlit("<<");
    }
    if !starts_with_at(r.as_slice(), 0, lt.as_slice()) {
        return None;
    }
    let t = trimmed(r.as_slice(), 2, r.len());
    if t.len() == 0 {
        return None;
    }
    Some(t)
}

fn find_line_exec(lines: &Vec<Vec<char>>, tag: &[char], i: usize, ls: Ghost<Seq<Seq<char>>>) -> (m: usize)
    requires
        lines_are(lines@, ls@),
        i <= lines@.len(),
    ensures
        m == find_line(ls@, tag@, i as int),
        i <= m <= lines@.len(),
{
    let mut m = i;
    while m < lines.len() && !crate::text::seq_eq(lines[m].as_slice(), tag)
        invariant
            lines_are(lines@, ls@),
            i <= m <= lines@.len(),
            find_line(ls@, tag@, m as int) == find_line(ls@, tag@, i as int),
        decreases lines.len() - m,
    {
        m = m + 1;
    }
    m
}

fn join_exec(lines: &Vec<Vec<char>>, from: usize, to: usize, ls: Ghost<Seq<Seq<char>>>) -> (s: String)
    requires
        lines_are(lines@, ls@),
        from <= to <= lines@.len(),
    ensures
        s@ == join_lines(ls@.subrange(from as int, to as int)),
{
    let mut s = String::new();
    let mut k = from;
    proof {
        reveal_strlit("\n");
    }
    while k < to
        invariant
            lines_are(lines@, ls@),
            from <= k <= to <= lines@.len(),
            s@ == join_lines(ls@.subrange(from as int, k as int)),
        decreases to - k,
    {
        let ghost s0 = s@;
        if k > from {
            crate::text::push_char(&mut s, '\n');
        }
        crate::text::push_chars(&mut s, lines[k].as_slice());
        proof {
            let a = ls@.subrange(from as int, k + 1);
            assert(a.drop_last() == ls@.subrange(from as int, k as int));
            assert(a.last() == ls@[k as int]);
            if k > from {
                reveal_strlit("\n");
                assert(s@ == s0 + "\n"@ + ls@[k as int]);
            } else {
                assert(s0.len() == 0);
                assert(s@ == ls@[k as int]);
                assert(a.len() == 1);
            }
        }
        k = k + 1;
    }
    s
}

fn msg2(a: &str, mid: &[char], b: &str) -> (s: String)
    ensures
        s@ == a@ + mid@ + b@,
{
    msg3(a, mid, b)
}

fn read_block(lines: &Vec<Vec<char>>, i: usize, kw: &str, ls: Ghost<Seq<Seq<char>>>) -> (r: Result<(String, usize), String>)
    requires
        lines_are(lines@, ls@),
        i <= lines@.len(),
    ensures
        match r {
            Ok((body, next)) => read_block_spec(ls@, i as int, kw@) == Ok::<(Seq<char>, int), Seq<char>>((body@, next as int)) && next <= lines@.len(),
            Err(e) => read_block_spec(ls@, i as int, kw@) == Err::<(Seq<char>, int), Seq<char>>(e@),
        },
{
    let kc = chars_of(kw);
    let j = skip_blank_exec(lines, i, ls);
    if j >= lines.len() {
        let mut m = String::from_str("missing `");
        crate::text::push_chars(&mut m, kc.as_slice());
        let tail = chars_of(" <<TAG` block");
        crate::text::push_chars(&mut m, tail.as_slice());
        proof {
            reveal_strlit("missing `");
            reveal_strlit(" <<TAG` block");
        }
        return Err(m);
    }
    let header = trimmed(lines[j].as_slice(), 0, lines[j].len());
    proof {
        assert(lines@[j as int]@.subrange(0, lines@[j as int]@.len() as int) == lines@[j as int]@);
    }
    match heredoc_tag_exec(header.as_slice(), kw) {
        None => {
            let mut m = String::from_str("expected `");
            crate::text::push_chars(&mut m, kc.as_slice());
            let mid = chars_of(" <<TAG`, got `");
            crate::text::push_chars(&mut m, mid.as_slice());
            crate::text::push_chars(&mut m, header.as_slice());
            crate::text::push_char(&mut m, '`');
            proof {
                reveal_strlit("expected `");
                reveal_strlit(" <<TAG`, got `");
                reveal_strlit("`");
                assert(m@ == "expected `"@ + kw@ + " <<TAG`, got `"@ + header@ + "`"@);
            }
            Err(m)
        },
        Some(tag) => {
            let m = find_line_exec(lines, tag.as_slice(), j + 1, ls);
            if m >= lines.len() {
                proof {
                    reveal_strlit("unterminated heredoc `");
                    reveal_strlit("`");
                }
                return Err(msg2("unterminated heredoc `", tag.as_slice(), "`"));
            }
            let body = join_exec(lines, j + 1, m, ls);
            Ok((body, m + 1))
        },
    }
}

pub open spec fn request_view(r: Result<RewriteSpec, String>) -> Result<(Option<Seq<char>>, Seq<char>, Seq<char>), Seq<char>> {
    match r {
        Ok(s) => Ok((
            match s.hash {
                Some(h) => Some(h@),
                None => None,
            },
            s.pattern_text@,
            s.template_text@,
        )),
        Err(e) => Err(e@),
    }
}

/// Read a rewrite request (see [`request_spec`]).
pub fn parse_request(input: &str) -> (r: Result<RewriteSpec, String>)
    ensures
        request_view(r) == request_spec(input@),
{
    let cs = chars_of(input);
    let spans = rust_line_spans(cs.as_slice());
    let ghost ls = rust_lines(input@);
    let mut lines: Vec<Vec<char>> = Vec::new();
    let mut k: usize = 0;
    while k < spans.len()
        invariant
            cs@ == input@,
            ls == rust_lines(input@),
            spans@.len() == ls.len(),
            forall|q: int|
                0 <= q < spans@.len() ==> (#[trigger] spans@[q]).0 <= spans@[q].1 <= cs@.len() && cs@.subrange(
                    spans@[q].0 as int,
                    spans@[q].1 as int,
                ) == ls[q],
            k <= spans@.len(),
            lines@.len() == k,
            forall|q: int| 0 <= q < k ==> (#[trigger] lines@[q])@ == ls[q],
        decreases spans.len() - k,
    {
        let (a, b) = spans[k];
        let l = slice_range(cs.as_slice(), a, b);
        let ghost l0 = lines@;
        lines.push(l);
        proof {
            assert forall|q: int| 0 <= q < k + 1 implies (#[trigger] lines@[q])@ == ls[q] by {
                if q < k {
                    assert(lines@[q] == l0[q]);
                }
            }
        }
        k = k + 1;
    }
    let g = Ghost(ls);
    assert(lines_are(lines@, ls));
    let i0 = skip_blank_exec(&lines, 0, g);
    let mut hash: Option<String> = None;
    let mut i1 = i0;
    if i0 < lines.len() {
        let t = trimmed(lines[i0].as_slice(), 0, lines[i0].len());
        proof {
            assert(lines@[i0 as int]@.subrange(0, lines@[i0 as int]@.len() as int) == lines@[i0 as int]@);
        }
        if t.len() > 0 && t[0] == '@' {
            let h = trimmed(t.as_slice(), 1, t.len());
            hash = Some(string_of(h.as_slice()));
            i1 = i0 + 1;
        }
    }
    let (pt, i2) = match read_block(&lines, i1, "pattern", g) {
        Ok(x) => x,
        Err(e) => return Err(e),
    };
    let (tt, _) = match read_block(&lines, i2, "template", g) {
        Ok(x) => x,
        Err(e) => return Err(e),
    };
    Ok(RewriteSpec { hash, pattern_text: pt, template_text: tt })
}


/// The content a planned rewrite writes (see [`refactored`]): in a dialect
/// the library auto-formats, the top-level forms holding a replaced site
/// reindented.
pub fn finish_rewrite(plan: &RewritePlan, dialect: Dialect, config: &FormatConfig) -> (r: String)
    ensures
        refactored(plan.content@, plan.spans@, dialect, *config, r@),
{
    reindent_spans(&plan.content, &plan.spans, dialect, config)
}


/// Whether `t` is literal data: a number, string, character, boolean or
/// quoted form.
pub open spec fn literal_datum(t: Node) -> bool {
    ||| t.shape == Shape::Number
    ||| t.shape == Shape::Str
    ||| t.shape == Shape::Char
    ||| t.shape == Shape::Bool
    ||| (t.shape == Shape::Prefixed && t.key@ == "Quote"@)
}

/// Whether `t` is an atom: a symbol, keyword, number, string, character or
/// boolean.
pub open spec fn atom_datum(t: Node) -> bool {
    ||| t.shape == Shape::Symbol
    ||| t.shape == Shape::Keyword
    ||| t.shape == Shape::Number
    ||| t.shape == Shape::Str
    ||| t.shape == Shape::Char
    ||| t.shape == Shape::Bool
}

/// A single (non-run) metavariable of class `:lit` matches exactly the
/// literal data, and one of class `:atom` exactly the atoms: any match
/// binds such a form, and the wildcard (which binds nothing) matches every
/// such form.
pub proof fn law_metavariable_classes(p: Node, t: Node, b: Seq<(Seq<char>, (bool, Seq<Node>))>)
    requires
        p.shape == Shape::Symbol,
        metavar_spec(p.key@) matches Some(Ok(m)) && !m.2,
    ensures
        metavar_spec(p.key@)->0->Ok_0.1 == MClass::Lit ==> (pmatch(p, t, b) is Some ==> literal_datum(t)),
        metavar_spec(p.key@)->0->Ok_0.1 == MClass::Lit && metavar_spec(p.key@)->0->Ok_0.0 is None ==> (literal_datum(t)
            ==> pmatch(p, t, b) == Some(b)),
        metavar_spec(p.key@)->0->Ok_0.1 == MClass::Atom ==> (pmatch(p, t, b) is Some ==> atom_datum(t)),
        metavar_spec(p.key@)->0->Ok_0.1 == MClass::Atom && metavar_spec(p.key@)->0->Ok_0.0 is None ==> (atom_datum(t)
            ==> pmatch(p, t, b) == Some(b)),
        metavar_spec(p.key@)->0->Ok_0.1 == MClass::Sym ==> (pmatch(p, t, b) is Some ==> t.shape == Shape::Symbol),
        metavar_spec(p.key@)->0->Ok_0.1 == MClass::List ==> (pmatch(p, t, b) is Some ==> t.shape == Shape::List),
{
}

} // verus!
