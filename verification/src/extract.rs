//! Extracting a form, or a run of sibling forms, into a new function: the
//! selection is cut verbatim into a definition placed before its enclosing
//! top-level form, and replaced by a call. The user names the function and
//! its parameters; nothing is inferred.

use std::ops::Range;

use vstd::prelude::*;
use vstd::utf8::encode_utf8;

use crate::edit::{landed_spans, splice, splice_spec, Edit, SpliceError};
use crate::config::FormatConfig;
use crate::refactor::{all_landed, refactored};
use crate::patch::{parse_anchor, parse_anchor_spec, ranges_are};
use crate::reader::{dialect_name_spec, read, reads_as, Dialect, Node, Shape};
use crate::resolve::{resolve, resolve_spec, LocV, Located};
use crate::structural::{byte_table_of, edit_at, edit_is, edits_are, et, seg, seg_string, EditT};
use crate::text::{chars_of, push_char, push_chars};
use crate::rewrite::all_nodes;
use crate::sexpr::{struct_eq, struct_eq_spec};

verus! {

/// Why an extraction was refused.
#[derive(Debug, PartialEq, Eq)]
pub enum ExtractError {
    /// The anchor was not `line:hash[:ordinal]`.
    BadAnchor(String),
    /// No form matched the anchor.
    AnchorNotFound(String),
    /// The requested run (`anchor + count`) extends past the anchored form's
    /// sibling group: the count asked for and the count available.
    RunExceedsSiblings { asked: usize, available: usize },
    /// The dialect has no known function-definition form yet.
    UnsupportedDialect(String),
    /// The edits could not be spliced.
    Splice(SpliceError),
}

/// A planned extraction: the new content before any reindent, how many
/// occurrences became a call, and the byte ranges the new texts (the
/// definition, then each call) occupy in the content.
pub struct ExtractPlan {
    pub content: String,
    pub sites: usize,
    pub spans: Vec<Range<usize>>,
}

/// Where a definition form puts its name, parameter list and brackets.
#[derive(Debug, Clone, Copy, PartialEq, Eq, Structural)]
pub enum DefShape {
    /// `(HEAD NAME (params) body)`: Emacs Lisp, Common Lisp.
    Flat,
    /// `(HEAD (NAME params) body)`: the Scheme family.
    Nested,
    /// `(HEAD NAME [params] body)`: Clojure.
    Bracket,
}

/// The plain-function head and shape for `d`, if the dialect has one.
pub open spec fn def_shape(d: Dialect) -> Option<(Seq<char>, DefShape)> {
    match d {
        Dialect::EmacsLisp | Dialect::CommonLisp => Some(("defun"@, DefShape::Flat)),
        Dialect::Scheme | Dialect::Guile | Dialect::Racket | Dialect::Gauche | Dialect::Mosh
        | Dialect::Gambit | Dialect::SchemeSuperset => Some(("define"@, DefShape::Nested)),
        Dialect::Clojure => Some(("defn"@, DefShape::Bracket)),
        _ => None,
    }
}

/// `ps` joined with single spaces.
pub open spec fn joined(ps: Seq<Seq<char>>) -> Seq<char>
    decreases ps.len(),
{
    if ps.len() == 0 {
        Seq::empty()
    } else if ps.len() == 1 {
        ps[0]
    } else {
        joined(ps.drop_last()) + seq![' '] + ps.last()
    }
}

/// Whether `s` holds a newline.
pub open spec fn has_newline(s: Seq<char>) -> bool {
    exists|k: int| 0 <= k < s.len() && s[k] == '\n'
}

/// The new definition wrapping `body` for `d`: `kind` overrides the head,
/// the shape stays the dialect's. A body of several lines starts on a line
/// of its own after the parameter list; a one-line body stays inline.
pub open spec fn def_text(
    d: Dialect,
    name: Seq<char>,
    params: Seq<Seq<char>>,
    body: Seq<char>,
    kind: Option<Seq<char>>,
) -> Option<Seq<char>> {
    match def_shape(d) {
        None => None,
        Some((head0, shape)) => {
            let head = match kind {
                Some(k) => k,
                None => head0,
            };
            let ps = joined(params);
            let sep = if has_newline(body) {
                seq!['\n']
            } else {
                seq![' ']
            };
            Some(
                match shape {
                    DefShape::Flat => seq!['('] + head + seq![' '] + name + seq![' ', '('] + ps + seq![')']
                        + sep + body + seq![')'],
                    DefShape::Nested => seq!['('] + head + seq![' ', '('] + name + seq![' '] + ps
                        + seq![')'] + sep + body + seq![')'],
                    DefShape::Bracket => seq!['('] + head + seq![' '] + name + seq![' ', '['] + ps
                        + seq![']'] + sep + body + seq![')'],
                },
            )
        },
    }
}

/// The call `(name params…)` that replaces each extracted occurrence.
pub open spec fn call_text(name: Seq<char>, params: Seq<Seq<char>>) -> Seq<char> {
    if params.len() == 0 {
        seq!['('] + name + seq![')']
    } else {
        seq!['('] + name + seq![' '] + joined(params) + seq![')']
    }
}

/// The name `{:?}` gives `d`.
pub open spec fn dialect_debug(d: Dialect) -> Seq<char> {
    match d {
        Dialect::Scheme => "Scheme"@,
        Dialect::Guile => "Guile"@,
        Dialect::Racket => "Racket"@,
        Dialect::Gauche => "Gauche"@,
        Dialect::Mosh => "Mosh"@,
        Dialect::Gambit => "Gambit"@,
        Dialect::SchemeSuperset => "SchemeSuperset"@,
        Dialect::Clojure => "Clojure"@,
        Dialect::Phel => "Phel"@,
        Dialect::Edn => "Edn"@,
        Dialect::CommonLisp => "CommonLisp"@,
        Dialect::EmacsLisp => "EmacsLisp"@,
        Dialect::Islisp => "Islisp"@,
        Dialect::AutoLisp => "AutoLisp"@,
        Dialect::Janet => "Janet"@,
        Dialect::Hy => "Hy"@,
        Dialect::Fennel => "Fennel"@,
        Dialect::Lfe => "Lfe"@,
    }
}

/// The sibling group of a located node: its parent list's items, or the
/// top-level `forms`.
pub open spec fn siblings_of(forms: Seq<Node>, l: LocV) -> Seq<Node> {
    match l.parent {
        Some(p) => if p.shape == Shape::List {
            p.items@
        } else {
            seq![l.node]
        },
        None => forms,
    }
}

/// The run of `count` contiguous siblings starting at `l`; or, when the run
/// is empty or crosses the end of the group, the count asked for and the
/// count available.
pub open spec fn run_of(forms: Seq<Node>, l: LocV, count: int) -> Result<Seq<Node>, (int, int)> {
    if count == 0 {
        Err((0, 0))
    } else if count == 1 {
        Ok(seq![l.node])
    } else {
        let sib = siblings_of(forms, l);
        let available = if l.index <= sib.len() {
            sib.len() - l.index
        } else {
            0
        };
        if count > available {
            Err((count, available))
        } else {
            Ok(sib.subrange(l.index, l.index + count))
        }
    }
}

/// The start of the first top-level form among `forms[k..]` that encloses
/// the characters `a..b`, or `a` when none does.
pub open spec fn enclosing_from(forms: Seq<Node>, a: int, b: int, k: int) -> int
    decreases forms.len() - k,
{
    if k < 0 || k >= forms.len() {
        a
    } else if forms[k].start <= a && b <= forms[k].end {
        forms[k].start as int
    } else {
        enclosing_from(forms, a, b, k + 1)
    }
}

/// Where the new definition goes: before the top-level form enclosing
/// `a..b`.
pub open spec fn enclosing_top_level(forms: Seq<Node>, a: int, b: int) -> int {
    enclosing_from(forms, a, b, 0)
}

/// Whether `r` is what splicing the edits `ts` into `src` gives: the content
/// with `sites` calls and where the edits' texts land, or the splice error.
pub open spec fn extracted(src: Seq<char>, ts: Seq<EditT>, sites: int, r: Result<ExtractPlan, ExtractError>) -> bool {
    exists|es: Seq<Edit>|
        #[trigger] edits_are(es, ts) && match r {
            Ok(p) => splice_spec(encode_utf8(src), es) == Ok::<Seq<u8>, SpliceError>(encode_utf8(p.content@))
                && p.sites == sites && ranges_are(p.spans@, all_landed(es)),
            Err(ExtractError::Splice(x)) => splice_spec(encode_utf8(src), es) == Err::<Seq<u8>, SpliceError>(x),
            _ => false,
        }
}

/// The edits of an extraction: the definition and a blank line inserted at
/// `at`, then each site replaced by the call.
pub open spec fn extract_edits(src: Seq<char>, at: int, def: Seq<char>, sites: Seq<(int, int)>, call: Seq<char>) -> Seq<EditT> {
    seq![et(src, at, at, def + seq!['\n', '\n'])] + Seq::new(
        sites.len(),
        |i: int| et(src, sites[i].0, sites[i].1, call),
    )
}

/// What extracting the run of `count` forms at `anchor` of `src` (read as
/// `forms`) into the function `name` with `params` gives.
pub open spec fn extract_outcome(
    src: Seq<char>,
    forms: Seq<Node>,
    anchor: Seq<char>,
    name: Seq<char>,
    params: Seq<Seq<char>>,
    count: int,
    kind: Option<Seq<char>>,
    dialect: Dialect,
    r: Result<ExtractPlan, ExtractError>,
) -> bool {
    match parse_anchor_spec(anchor) {
        Err(_) => r matches Err(ExtractError::BadAnchor(a)) && a@ == anchor,
        Ok(av) => match resolve_spec(src, forms, av) {
            None => r matches Err(ExtractError::AnchorNotFound(a)) && a@ == anchor,
            Some(l) => match run_of(forms, l, count) {
                Err((asked, available)) => r matches Err(ExtractError::RunExceedsSiblings { asked: x, available: y })
                    && x == asked && y == available,
                Ok(run) => {
                    let a = run[0].start as int;
                    let b = run.last().end as int;
                    match def_text(dialect, name, params, seg(src, a, b), kind) {
                        None => r matches Err(ExtractError::UnsupportedDialect(d)) && d@ == dialect_debug(dialect),
                        Some(def) => extracted(
                            src,
                            extract_edits(src, enclosing_top_level(forms, a, b), def, seq![(a, b)], call_text(name, params)),
                            1,
                            r,
                        ),
                    }
                },
            },
        },
    }
}

/// `ps` joined with single spaces.
fn joined_string(ps: &[String]) -> (s: String)
    ensures
        s@ == joined(param_views(ps@)),
{
    let ghost pv = param_views(ps@);
    let mut s = String::new();
    let mut i: usize = 0;
    assert(pv.take(0) =~= Seq::<Seq<char>>::empty());
    while i < ps.len()
        invariant
            pv == param_views(ps@),
            i <= ps@.len(),
            s@ == joined(pv.take(i as int)),
        decreases ps.len() - i,
    {
        let ghost before = s@;
        assert(pv.take(i + 1).drop_last() =~= pv.take(i as int));
        assert(pv.take(i + 1).last() == ps@[i as int]@);
        if i > 0 {
            push_char(&mut s, ' ');
        }
        s.append(ps[i].as_str());
        if i == 0 {
            assert(pv.take(1) =~= seq![pv[0]]);
            assert(s@ =~= joined(pv.take(1)));
        } else {
            assert(s@ =~= before + seq![' '] + ps@[i as int]@);
        }
        i = i + 1;
    }
    assert(pv.take(ps.len() as int) =~= pv);
    s
}

fn has_newline_exec(cs: &[char]) -> (b: bool)
    ensures
        b == has_newline(cs@),
{
    let mut i: usize = 0;
    while i < cs.len()
        invariant
            i <= cs@.len(),
            forall|k: int| 0 <= k < i ==> cs@[k] != '\n',
        decreases cs.len() - i,
    {
        if cs[i] == '\n' {
            return true;
        }
        i = i + 1;
    }
    false
}

/// The name `{:?}` gives `d` (see [`dialect_debug`]).
fn dialect_debug_string(d: Dialect) -> (s: String)
    ensures
        s@ == dialect_debug(d),
{
    proof {
        reveal_strlit("Scheme");
        reveal_strlit("Guile");
        reveal_strlit("Racket");
        reveal_strlit("Gauche");
        reveal_strlit("Mosh");
        reveal_strlit("Gambit");
        reveal_strlit("SchemeSuperset");
        reveal_strlit("Clojure");
        reveal_strlit("Phel");
        reveal_strlit("Edn");
        reveal_strlit("CommonLisp");
        reveal_strlit("EmacsLisp");
        reveal_strlit("Islisp");
        reveal_strlit("AutoLisp");
        reveal_strlit("Janet");
        reveal_strlit("Hy");
        reveal_strlit("Fennel");
        reveal_strlit("Lfe");
    }
    String::from_str(
        match d {
            Dialect::Scheme => "Scheme",
            Dialect::Guile => "Guile",
            Dialect::Racket => "Racket",
            Dialect::Gauche => "Gauche",
            Dialect::Mosh => "Mosh",
            Dialect::Gambit => "Gambit",
            Dialect::SchemeSuperset => "SchemeSuperset",
            Dialect::Clojure => "Clojure",
            Dialect::Phel => "Phel",
            Dialect::Edn => "Edn",
            Dialect::CommonLisp => "CommonLisp",
            Dialect::EmacsLisp => "EmacsLisp",
            Dialect::Islisp => "Islisp",
            Dialect::AutoLisp => "AutoLisp",
            Dialect::Janet => "Janet",
            Dialect::Hy => "Hy",
            Dialect::Fennel => "Fennel",
            Dialect::Lfe => "Lfe",
        },
    )
}

/// The new definition wrapping `body` (see [`def_text`]).
fn def_string(d: Dialect, name: &str, params: &[String], body: &[char], kind: Option<&str>) -> (r: Option<String>)
    ensures
        match r {
            Some(s) => def_text(d, name@, param_views(params@), body@, kind_view(kind)) == Some(s@),
            None => def_text(d, name@, param_views(params@), body@, kind_view(kind)) is None,
        },
{
    proof {
        reveal_strlit("defun");
        reveal_strlit("define");
        reveal_strlit("defn");
    }
    let (head0, shape) = match d {
        Dialect::EmacsLisp | Dialect::CommonLisp => ("defun", DefShape::Flat),
        Dialect::Scheme | Dialect::Guile | Dialect::Racket | Dialect::Gauche | Dialect::Mosh
        | Dialect::Gambit | Dialect::SchemeSuperset => ("define", DefShape::Nested),
        Dialect::Clojure => ("defn", DefShape::Bracket),
        _ => return None,
    };
    let head = match kind {
        Some(k) => k,
        None => head0,
    };
    let ps = joined_string(params);
    let nl = has_newline_exec(body);
    let mut s = String::new();
    push_char(&mut s, '(');
    s.append(head);
    match shape {
        DefShape::Flat => {
            push_char(&mut s, ' ');
            s.append(name);
            push_char(&mut s, ' ');
            push_char(&mut s, '(');
            s.append(ps.as_str());
            push_char(&mut s, ')');
        },
        DefShape::Nested => {
            push_char(&mut s, ' ');
            push_char(&mut s, '(');
            s.append(name);
            push_char(&mut s, ' ');
            s.append(ps.as_str());
            push_char(&mut s, ')');
        },
        DefShape::Bracket => {
            push_char(&mut s, ' ');
            s.append(name);
            push_char(&mut s, ' ');
            push_char(&mut s, '[');
            s.append(ps.as_str());
            push_char(&mut s, ']');
        },
    }
    if nl {
        push_char(&mut s, '\n');
    } else {
        push_char(&mut s, ' ');
    }
    push_chars(&mut s, body);
    push_char(&mut s, ')');
    let ghost want = def_text(d, name@, param_views(params@), body@, kind_view(kind));
    assert(want is Some);
    assert(s@ =~= want->0);
    Some(s)
}

/// The call `(name params…)` (see [`call_text`]).
fn call_string(name: &str, params: &[String]) -> (s: String)
    ensures
        s@ == call_text(name@, param_views(params@)),
{
    let mut s = String::new();
    push_char(&mut s, '(');
    s.append(name);
    if params.len() > 0 {
        push_char(&mut s, ' ');
        let ps = joined_string(params);
        s.append(ps.as_str());
    }
    push_char(&mut s, ')');
    assert(s@ =~= call_text(name@, param_views(params@)));
    s
}

/// The start of the top-level form enclosing `a..b` (see
/// [`enclosing_top_level`]).
fn enclosing_exec(forms: &[Node], a: usize, b: usize) -> (r: usize)
    ensures
        r == enclosing_top_level(forms@, a as int, b as int),
{
    let mut k: usize = 0;
    while k < forms.len()
        invariant
            k <= forms@.len(),
            enclosing_top_level(forms@, a as int, b as int) == enclosing_from(forms@, a as int, b as int, k as int),
        decreases forms.len() - k,
    {
        if forms[k].start <= a && b <= forms[k].end {
            return forms[k].start;
        }
        k = k + 1;
    }
    a
}

/// The run of `count` siblings at `l` (see [`run_of`]).
fn run_exec<'a>(forms: &'a [Node], l: &Located<'a>, count: usize) -> (r: Result<Vec<&'a Node>, (usize, usize)>)
    ensures
        match r {
            Ok(v) => run_of(forms@, l@, count as int) == Ok::<Seq<Node>, (int, int)>(
                crate::refactor::derefs(v@),
            ),
            Err((x, y)) => run_of(forms@, l@, count as int) == Err::<Seq<Node>, (int, int)>((x as int, y as int)),
        },
{
    if count == 0 {
        return Err((0, 0));
    }
    if count == 1 {
        let v = vec![l.node];
        assert(crate::refactor::derefs(v@) =~= seq![*l.node]);
        return Ok(v);
    }
    let sib: &'a [Node] = match l.parent {
        Some(p) => if p.shape == Shape::List {
            p.items.as_slice()
        } else {
            let available = if l.index <= 1 {
                1 - l.index
            } else {
                0
            };
            return Err((count, available));
        },
        None => forms,
    };
    assert(sib@ == siblings_of(forms@, l@));
    let available = if l.index <= sib.len() {
        sib.len() - l.index
    } else {
        0
    };
    if count > available {
        return Err((count, available));
    }
    let mut v: Vec<&'a Node> = Vec::new();
    let mut k: usize = 0;
    let ix = l.index;
    while k < count
        invariant
            count <= available,
            ix == l.index,
            sib@.len() == sib.len(),
            ix <= sib@.len(),
            available == sib@.len() - ix,
            k <= count,
            v@.len() == k,
            forall|q: int| 0 <= q < k ==> *v@[q] == sib@[ix + q],
        decreases count - k,
    {
        assert(ix + k < sib@.len());
        v.push(&sib[ix + k]);
        k = k + 1;
    }
    assert(crate::refactor::derefs(v@) =~= sib@.subrange(l.index as int, l.index + count));
    Ok(v)
}

/// The texts of `ps`.
pub open spec fn param_views(ps: Seq<String>) -> Seq<Seq<char>> {
    ps.map_values(|p: String| p@)
}

/// The view of an optional `kind` override.
pub open spec fn kind_view(kind: Option<&str>) -> Option<Seq<char>> {
    match kind {
        Some(k) => Some(k@),
        None => None,
    }
}

/// Plan extracting the run of `count` contiguous sibling forms starting at
/// `anchor` (`line:hash[:ordinal]`) of `source`, read as `dialect`, into a
/// new function `name` with the parameters `params`: the run is wrapped
/// verbatim as the body of the dialect's definition form (`kind` overriding
/// its head), placed with a blank line before the top-level form enclosing
/// the run, and the run is replaced by the call `(name params…)`. A
/// `count` of 1 extracts the anchored form itself.
pub fn plan_extract(
    source: &str,
    anchor: &str,
    name: &str,
    params: &[String],
    count: usize,
    kind: Option<&str>,
    dialect: Dialect,
) -> (r: Result<ExtractPlan, ExtractError>)
    ensures
        exists|forms: Seq<Node>|
            reads_as(source@, dialect_name_spec(dialect), false, forms) && #[trigger] extract_outcome(
                source@,
                forms,
                anchor@,
                name@,
                param_views(params@),
                count as int,
                kind_view(kind),
                dialect,
                r,
            ),
{
    let forms = read(source, dialect, false);
    let ghost fs = forms@;
    let ghost pv = param_views(params@);
    let ac = chars_of(anchor);
    assert(ac@.subrange(0, ac@.len() as int) == anchor@);
    let av = match parse_anchor(ac.as_slice(), 0, ac.len()) {
        Ok(a) => a,
        Err(_) => {
            let r = Err(ExtractError::BadAnchor(String::from_str(anchor)));
            assert(extract_outcome(source@, fs, anchor@, name@, pv, count as int, kind_view(kind), dialect, r));
            return r;
        },
    };
    let loc = match resolve(source, forms.as_slice(), &av) {
        Some(l) => l,
        None => {
            let r = Err(ExtractError::AnchorNotFound(String::from_str(anchor)));
            assert(extract_outcome(source@, fs, anchor@, name@, pv, count as int, kind_view(kind), dialect, r));
            return r;
        },
    };
    let run = match run_exec(forms.as_slice(), &loc, count) {
        Ok(v) => v,
        Err((x, y)) => {
            let r = Err(ExtractError::RunExceedsSiblings { asked: x, available: y });
            assert(extract_outcome(source@, fs, anchor@, name@, pv, count as int, kind_view(kind), dialect, r));
            return r;
        },
    };
    let ghost rv = crate::refactor::derefs(run@);
    assert(rv.len() == run@.len() && rv.len() >= 1);
    let a = run[0].start;
    let b = run[run.len() - 1].end;
    assert(rv[0] == *run@[0] && rv.last() == *run@[run@.len() - 1]);
    let cs = chars_of(source);
    let body = seg_string(cs.as_slice(), a, b);
    let bc = chars_of(body.as_str());
    let def = match def_string(dialect, name, params, bc.as_slice(), kind) {
        Some(d) => d,
        None => {
            let r = Err(ExtractError::UnsupportedDialect(dialect_debug_string(dialect)));
            assert(extract_outcome(source@, fs, anchor@, name@, pv, count as int, kind_view(kind), dialect, r));
            return r;
        },
    };
    let call = call_string(name, params);
    let at = enclosing_exec(forms.as_slice(), a, b);
    let bt = crate::format::byte_table(cs.as_slice());
    assert(byte_table_of(cs@, bt@));
    let mut dtext = def;
    let ghost d0 = dtext@;
    push_char(&mut dtext, '\n');
    push_char(&mut dtext, '\n');
    assert(dtext@ =~= d0 + seq!['\n', '\n']);
    let e0 = edit_at(cs.as_slice(), &bt, at, at, dtext);
    let e1 = edit_at(cs.as_slice(), &bt, a, b, call);
    let edits = vec![e0, e1];
    let spans = landed_spans(&edits);
    let ghost es = edits@;
    let ghost ts = extract_edits(source@, at as int, d0, seq![(a as int, b as int)], call_text(name@, pv));
    assert(edits_are(es, ts)) by {
        assert(ts.len() == 2);
        assert(ts[0] == et(source@, at as int, at as int, d0 + seq!['\n', '\n']));
        assert(ts[1] == et(source@, a as int, b as int, call_text(name@, pv)));
    }
    let r = match splice(source, edits) {
        Ok(content) => Ok(ExtractPlan { content, sites: 1, spans }),
        Err(x) => Err(ExtractError::Splice(x)),
    };
    proof {
        if r is Ok {
            assert(ranges_are(r->Ok_0.spans@, all_landed(es)));
        }
        assert(extracted(source@, ts, 1, r));
    }
    assert(extract_outcome(source@, fs, anchor@, name@, pv, count as int, kind_view(kind), dialect, r));
    r
}

/// The content a planned extraction writes: in a dialect the library
/// auto-formats, the top-level forms its edits touched reindented (see
/// [`refactored`]); elsewhere the content unchanged.
pub fn finish_extract(plan: &ExtractPlan, dialect: Dialect, config: &FormatConfig) -> (r: String)
    ensures
        refactored(plan.content@, plan.spans@, dialect, *config, r@),
{
    crate::refactor::reindent_spans(&plan.content, &plan.spans, dialect, config)
}

// --- Every occurrence of the selection ------------------------------------------------

/// The spans of the nodes among `ns[..k]` structurally equal to `p`.
pub open spec fn node_sites(p: Node, ns: Seq<Node>, k: int) -> Seq<(usize, usize)>
    decreases k,
{
    if k <= 0 || k > ns.len() {
        Seq::empty()
    } else {
        node_sites(p, ns, k - 1) + if struct_eq_spec(ns[k - 1], p) {
            seq![(ns[k - 1].start, ns[k - 1].end)]
        } else {
            Seq::empty()
        }
    }
}

/// Whether the `pat.len()` siblings of `g` from `w` on are structurally
/// equal to `pat`, one for one.
pub open spec fn window_eq(g: Seq<Node>, pat: Seq<Node>, w: int) -> bool {
    forall|k: int| 0 <= k < pat.len() ==> struct_eq_spec(#[trigger] g[w + k], pat[k])
}

/// The spans of the windows of `g` equal to `pat` that start before `w`.
pub open spec fn windows_upto(g: Seq<Node>, pat: Seq<Node>, w: int) -> Seq<(usize, usize)>
    decreases w,
{
    if w <= 0 {
        Seq::empty()
    } else {
        windows_upto(g, pat, w - 1) + if window_eq(g, pat, w - 1) {
            seq![(g[w - 1].start, g[w - 1 + pat.len() - 1].end)]
        } else {
            Seq::empty()
        }
    }
}

/// The spans of every window of the sibling group `g` equal to `pat`.
pub open spec fn group_windows(g: Seq<Node>, pat: Seq<Node>) -> Seq<(usize, usize)> {
    if g.len() < pat.len() {
        Seq::empty()
    } else {
        windows_upto(g, pat, g.len() - pat.len() + 1)
    }
}

/// The windows equal to `pat` in the sibling group `data` and in every
/// group within it: `data` itself first, then each datum's, in order.
pub open spec fn wins_group(data: Seq<Node>, pat: Seq<Node>) -> Seq<(usize, usize)>
    decreases data, 3int,
{
    group_windows(data, pat) + wins_range(data, pat, data.len() as int)
}

/// The windows within the groups of `data[..k]`.
pub open spec fn wins_range(data: Seq<Node>, pat: Seq<Node>, k: int) -> Seq<(usize, usize)>
    decreases data, 2int, k,
{
    if k <= 0 || k > data.len() {
        Seq::empty()
    } else {
        wins_range(data, pat, k - 1) + wins_in(data[k - 1], pat)
    }
}

/// The windows within the groups under `n`: a list's elements and its
/// dotted tail, a reader macro's target and auxiliary datum, the datum of
/// a `#tag` form or label.
pub open spec fn wins_in(n: Node, pat: Seq<Node>) -> Seq<(usize, usize)>
    decreases n, 0int, 0int,
{
    match n.shape {
        Shape::List => wins_group(n.items@, pat) + wins_opt(n.tail, pat),
        Shape::Prefixed => wins_opt(n.inner, pat) + wins_opt(n.arg, pat),
        Shape::HashLiteral | Shape::Label => wins_opt(n.inner, pat),
        _ => Seq::empty(),
    }
}

/// The windows in the one-datum group of an optional child, and within it.
pub open spec fn wins_opt(o: Option<Box<Node>>, pat: Seq<Node>) -> Seq<(usize, usize)>
    decreases o, 1int, 0int,
{
    match o {
        Some(x) => group_windows(seq![*x], pat) + wins_in(*x, pat),
        None => Seq::empty(),
    }
}

/// Every occurrence of the run `pat` in `forms`: for one datum, every node
/// of the tree structurally equal to it; for several, every window of
/// contiguous siblings equal to them one for one.
pub open spec fn struct_sites(pat: Seq<Node>, forms: Seq<Node>) -> Seq<(usize, usize)> {
    if pat.len() == 1 {
        node_sites(pat[0], all_nodes(forms), all_nodes(forms).len() as int)
    } else {
        wins_group(forms, pat)
    }
}

/// Whether span `a` sorts no later than `b`: by start, the longer first.
pub open spec fn span_le(a: (usize, usize), b: (usize, usize)) -> bool {
    a.0 < b.0 || (a.0 == b.0 && a.1 >= b.1)
}

/// Insert `x` into sorted `s` after every span sorting no later.
pub open spec fn insert_span(s: Seq<(usize, usize)>, x: (usize, usize)) -> Seq<(usize, usize)>
    decreases s.len(),
{
    if s.len() == 0 {
        seq![x]
    } else if span_le(s.last(), x) {
        s.push(x)
    } else {
        insert_span(s.drop_last(), x).push(s.last())
    }
}

/// `s` sorted by start, the longer of two spans with one start first.
pub open spec fn sort_spans(s: Seq<(usize, usize)>) -> Seq<(usize, usize)>
    decreases s.len(),
{
    if s.len() == 0 {
        s
    } else {
        insert_span(sort_spans(s.drop_last()), s.last())
    }
}

/// Of the sorted `s[..k]`, the spans kept (each starting at or after the end
/// of the last one kept), and the end of the last one kept.
pub open spec fn keep_spans(s: Seq<(usize, usize)>, k: int) -> (Seq<(usize, usize)>, usize)
    decreases k,
{
    if k <= 0 || k > s.len() {
        (Seq::empty(), 0)
    } else {
        let (kept, covered) = keep_spans(s, k - 1);
        if s[k - 1].0 >= covered {
            (kept.push(s[k - 1]), s[k - 1].1)
        } else {
            (kept, covered)
        }
    }
}

/// The outermost, non-overlapping spans of `s`, in ascending order.
pub open spec fn outermost(s: Seq<(usize, usize)>) -> Seq<(usize, usize)> {
    keep_spans(sort_spans(s), sort_spans(s).len() as int).0
}

/// `s` as integer pairs.
pub open spec fn int_spans(s: Seq<(usize, usize)>) -> Seq<(int, int)> {
    Seq::new(s.len(), |i: int| (s[i].0 as int, s[i].1 as int))
}

fn node_sites_exec(p: &Node, ns: &Vec<&Node>) -> (r: Vec<(usize, usize)>)
    ensures
        r@ == node_sites(*p, crate::refactor::derefs(ns@), ns@.len() as int),
{
    let ghost nv = crate::refactor::derefs(ns@);
    let mut r: Vec<(usize, usize)> = Vec::new();
    let mut k: usize = 0;
    while k < ns.len()
        invariant
            nv == crate::refactor::derefs(ns@),
            k <= ns@.len(),
            r@ == node_sites(*p, nv, k as int),
        decreases ns.len() - k,
    {
        let n = ns[k];
        assert(nv[k as int] == *n);
        if struct_eq(n, p) {
            r.push((n.start, n.end));
        }
        assert(r@ =~= node_sites(*p, nv, k + 1));
        k = k + 1;
    }
    r
}

fn window_eq_exec(g: &[Node], pat: &Vec<&Node>, w: usize) -> (b: bool)
    requires
        w + pat@.len() <= g@.len(),
    ensures
        b == window_eq(g@, crate::refactor::derefs(pat@), w as int),
{
    let ghost pv = crate::refactor::derefs(pat@);
    let mut k: usize = 0;
    while k < pat.len()
        invariant
            pv == crate::refactor::derefs(pat@),
            w + pat@.len() <= g@.len(),
            g@.len() == g.len(),
            k <= pat@.len(),
            forall|q: int| 0 <= q < k ==> struct_eq_spec(#[trigger] g@[w + q], pv[q]),
        decreases pat.len() - k,
    {
        if !struct_eq(&g[w + k], pat[k]) {
            assert(!struct_eq_spec(g@[w + k as int], pv[k as int]));
            return false;
        }
        k = k + 1;
    }
    true
}

fn windows_exec(g: &[Node], pat: &Vec<&Node>, out: &mut Vec<(usize, usize)>)
    requires
        pat@.len() >= 1,
    ensures
        final(out)@ == old(out)@ + group_windows(g@, crate::refactor::derefs(pat@)),
{
    let ghost pv = crate::refactor::derefs(pat@);
    let ghost o0 = old(out)@;
    if g.len() < pat.len() {
        assert(o0 + group_windows(g@, pv) =~= o0);
        return;
    }
    let last = g.len() - pat.len() + 1;
    let mut w: usize = 0;
    assert(o0 + windows_upto(g@, pv, 0) =~= o0);
    while w < last
        invariant
            pv == crate::refactor::derefs(pat@),
            pat@.len() >= 1,
            last == g@.len() - pat@.len() + 1,
            w <= last,
            out@ == o0 + windows_upto(g@, pv, w as int),
        decreases last - w,
    {
        if window_eq_exec(g, pat, w) {
            out.push((g[w].start, g[w + pat.len() - 1].end));
        }
        assert(out@ =~= o0 + windows_upto(g@, pv, w + 1));
        w = w + 1;
    }
}

fn wins_group_exec(data: &[Node], pat: &Vec<&Node>, out: &mut Vec<(usize, usize)>)
    requires
        pat@.len() >= 2,
    ensures
        final(out)@ == old(out)@ + wins_group(data@, crate::refactor::derefs(pat@)),
    decreases data@, 3int,
{
    let ghost pv = crate::refactor::derefs(pat@);
    let ghost o0 = old(out)@;
    windows_exec(data, pat, out);
    wins_range_exec(data, pat, out);
    assert(out@ =~= o0 + wins_group(data@, pv));
}

fn wins_range_exec(data: &[Node], pat: &Vec<&Node>, out: &mut Vec<(usize, usize)>)
    requires
        pat@.len() >= 2,
    ensures
        final(out)@ == old(out)@ + wins_range(data@, crate::refactor::derefs(pat@), data@.len() as int),
    decreases data@, 2int,
{
    let ghost pv = crate::refactor::derefs(pat@);
    let ghost o0 = old(out)@;
    let mut k: usize = 0;
    assert(o0 + wins_range(data@, pv, 0) =~= o0);
    while k < data.len()
        invariant
            pv == crate::refactor::derefs(pat@),
            pat@.len() >= 2,
            k <= data@.len(),
            out@ == o0 + wins_range(data@, pv, k as int),
        decreases data.len() - k,
    {
        wins_in_exec(&data[k], pat, out);
        assert(out@ =~= o0 + wins_range(data@, pv, k + 1));
        k = k + 1;
    }
}

fn wins_in_exec(n: &Node, pat: &Vec<&Node>, out: &mut Vec<(usize, usize)>)
    requires
        pat@.len() >= 2,
    ensures
        final(out)@ == old(out)@ + wins_in(*n, crate::refactor::derefs(pat@)),
    decreases *n, 0int,
{
    let ghost pv = crate::refactor::derefs(pat@);
    let ghost o0 = old(out)@;
    match n.shape {
        Shape::List => {
            wins_group_exec(n.items.as_slice(), pat, out);
            wins_opt_exec(&n.tail, pat, out);
            assert(out@ =~= o0 + wins_in(*n, pv));
        },
        Shape::Prefixed => {
            wins_opt_exec(&n.inner, pat, out);
            wins_opt_exec(&n.arg, pat, out);
            assert(out@ =~= o0 + wins_in(*n, pv));
        },
        Shape::HashLiteral | Shape::Label => {
            wins_opt_exec(&n.inner, pat, out);
        },
        _ => {
            assert(out@ =~= o0 + wins_in(*n, pv));
        },
    }
}

fn wins_opt_exec(o: &Option<Box<Node>>, pat: &Vec<&Node>, out: &mut Vec<(usize, usize)>)
    requires
        pat@.len() >= 2,
    ensures
        final(out)@ == old(out)@ + wins_opt(*o, crate::refactor::derefs(pat@)),
    decreases *o, 1int,
{
    let ghost pv = crate::refactor::derefs(pat@);
    let ghost o0 = old(out)@;
    match o {
        Some(x) => {
            assert(group_windows(seq![**x], pv) =~= Seq::<(usize, usize)>::empty());
            wins_in_exec(x, pat, out);
            assert(out@ =~= o0 + wins_opt(*o, pv));
        },
        None => {
            assert(out@ =~= o0 + wins_opt(*o, pv));
        },
    }
}

/// The occurrences an all-sites extraction replaces: the outermost of
/// [`struct_sites`], or the anchored run `a..b` itself should there be
/// none.
pub open spec fn all_sites(pat: Seq<Node>, forms: Seq<Node>, a: int, b: int) -> Seq<(usize, usize)> {
    let kept = outermost(struct_sites(pat, forms));
    if kept.len() == 0 {
        seq![(a as usize, b as usize)]
    } else {
        kept
    }
}

/// What extracting every occurrence of the run of `count` forms at
/// `anchor` of `src` (read as `forms`) into the function `name` gives.
pub open spec fn extract_all_outcome(
    src: Seq<char>,
    forms: Seq<Node>,
    anchor: Seq<char>,
    name: Seq<char>,
    params: Seq<Seq<char>>,
    count: int,
    kind: Option<Seq<char>>,
    dialect: Dialect,
    r: Result<ExtractPlan, ExtractError>,
) -> bool {
    match parse_anchor_spec(anchor) {
        Err(_) => r matches Err(ExtractError::BadAnchor(a)) && a@ == anchor,
        Ok(av) => match resolve_spec(src, forms, av) {
            None => r matches Err(ExtractError::AnchorNotFound(a)) && a@ == anchor,
            Some(l) => match run_of(forms, l, count) {
                Err((asked, available)) => r matches Err(ExtractError::RunExceedsSiblings { asked: x, available: y })
                    && x == asked && y == available,
                Ok(run) => {
                    let a = run[0].start as int;
                    let b = run.last().end as int;
                    match def_text(dialect, name, params, seg(src, a, b), kind) {
                        None => r matches Err(ExtractError::UnsupportedDialect(d)) && d@ == dialect_debug(dialect),
                        Some(def) => {
                            let sites = all_sites(run, forms, a, b);
                            extracted(
                                src,
                                extract_edits(
                                    src,
                                    enclosing_top_level(forms, sites[0].0 as int, sites[0].1 as int),
                                    def,
                                    int_spans(sites),
                                    call_text(name, params),
                                ),
                                sites.len() as int,
                                r,
                            )
                        },
                    }
                },
            },
        },
    }
}

fn insert_span_exec(sorted: &mut Vec<(usize, usize)>, x: (usize, usize))
    ensures
        final(sorted)@ == insert_span(old(sorted)@, x),
{
    let mut p = sorted.len();
    assert(sorted@.subrange(0, p as int) == sorted@);
    assert(insert_span(sorted@, x) == insert_span(sorted@.subrange(0, p as int), x)
        + sorted@.subrange(p as int, sorted@.len() as int));
    while p > 0 && !(sorted[p - 1].0 < x.0 || (sorted[p - 1].0 == x.0 && sorted[p - 1].1 >= x.1))
        invariant
            p <= sorted@.len(),
            sorted@ == old(sorted)@,
            insert_span(sorted@, x) == insert_span(sorted@.subrange(0, p as int), x)
                + sorted@.subrange(p as int, sorted@.len() as int),
        decreases p,
    {
        let ghost s = sorted@.subrange(0, p as int);
        assert(s.drop_last() == sorted@.subrange(0, p - 1));
        assert(s.last() == sorted@[p - 1]);
        assert(seq![sorted@[p - 1]] + sorted@.subrange(p as int, sorted@.len() as int)
            == sorted@.subrange(p - 1, sorted@.len() as int));
        p = p - 1;
    }
    proof {
        let s = sorted@.subrange(0, p as int);
        if p > 0 {
            assert(s.last() == sorted@[p - 1]);
        }
        assert(insert_span(s, x) == s.push(x));
    }
    sorted.insert(p, x);
    assert(sorted@ == old(sorted)@.subrange(0, p as int).push(x) + old(sorted)@.subrange(
        p as int,
        old(sorted)@.len() as int,
    ));
}

/// The outermost, non-overlapping spans of `spans` (see [`outermost`]).
fn outermost_exec(spans: &Vec<(usize, usize)>) -> (r: Vec<(usize, usize)>)
    ensures
        r@ == outermost(spans@),
{
    let ghost all = spans@;
    let mut sorted: Vec<(usize, usize)> = Vec::new();
    let mut i: usize = 0;
    assert(all.subrange(0, 0) =~= Seq::<(usize, usize)>::empty());
    while i < spans.len()
        invariant
            all == spans@,
            i <= all.len(),
            sorted@ == sort_spans(all.subrange(0, i as int)),
        decreases spans.len() - i,
    {
        proof {
            assert(all.subrange(0, i + 1).drop_last() == all.subrange(0, i as int));
            assert(all.subrange(0, i + 1).last() == all[i as int]);
        }
        insert_span_exec(&mut sorted, spans[i]);
        i = i + 1;
    }
    assert(all.subrange(0, all.len() as int) == all);
    let ghost t = sorted@;
    let mut kept: Vec<(usize, usize)> = Vec::new();
    let mut covered: usize = 0;
    let mut k: usize = 0;
    while k < sorted.len()
        invariant
            t == sorted@,
            t == sort_spans(all),
            k <= t.len(),
            keep_spans(t, k as int) == (kept@, covered),
        decreases sorted.len() - k,
    {
        let x = sorted[k];
        if x.0 >= covered {
            covered = x.1;
            kept.push(x);
        }
        k = k + 1;
    }
    kept
}

/// Plan extracting every occurrence structurally equal to the run of
/// `count` forms at `anchor` into one new function `name` (see
/// [`plan_extract`]): for one form, every node of the tree equal to it; for
/// several, every window of contiguous siblings equal to them. The
/// outermost, non-overlapping occurrences are each replaced by the same
/// call, and the definition, built from the anchored text, goes before
/// the top-level form enclosing the first of them.
pub fn plan_extract_all(
    source: &str,
    anchor: &str,
    name: &str,
    params: &[String],
    count: usize,
    kind: Option<&str>,
    dialect: Dialect,
) -> (r: Result<ExtractPlan, ExtractError>)
    ensures
        exists|forms: Seq<Node>|
            reads_as(source@, dialect_name_spec(dialect), false, forms) && #[trigger] extract_all_outcome(
                source@,
                forms,
                anchor@,
                name@,
                param_views(params@),
                count as int,
                kind_view(kind),
                dialect,
                r,
            ),
{
    let forms = read(source, dialect, false);
    let ghost fs = forms@;
    let ghost pv = param_views(params@);
    let ac = chars_of(anchor);
    assert(ac@.subrange(0, ac@.len() as int) == anchor@);
    let av = match parse_anchor(ac.as_slice(), 0, ac.len()) {
        Ok(a) => a,
        Err(_) => {
            let r = Err(ExtractError::BadAnchor(String::from_str(anchor)));
            assert(extract_all_outcome(source@, fs, anchor@, name@, pv, count as int, kind_view(kind), dialect, r));
            return r;
        },
    };
    let loc = match resolve(source, forms.as_slice(), &av) {
        Some(l) => l,
        None => {
            let r = Err(ExtractError::AnchorNotFound(String::from_str(anchor)));
            assert(extract_all_outcome(source@, fs, anchor@, name@, pv, count as int, kind_view(kind), dialect, r));
            return r;
        },
    };
    let run = match run_exec(forms.as_slice(), &loc, count) {
        Ok(v) => v,
        Err((x, y)) => {
            let r = Err(ExtractError::RunExceedsSiblings { asked: x, available: y });
            assert(extract_all_outcome(source@, fs, anchor@, name@, pv, count as int, kind_view(kind), dialect, r));
            return r;
        },
    };
    let ghost rv = crate::refactor::derefs(run@);
    assert(rv.len() == run@.len() && rv.len() >= 1);
    let a = run[0].start;
    let b = run[run.len() - 1].end;
    assert(rv[0] == *run@[0] && rv.last() == *run@[run@.len() - 1]);
    let cs = chars_of(source);
    let body = seg_string(cs.as_slice(), a, b);
    let bc = chars_of(body.as_str());
    let def = match def_string(dialect, name, params, bc.as_slice(), kind) {
        Some(d) => d,
        None => {
            let r = Err(ExtractError::UnsupportedDialect(dialect_debug_string(dialect)));
            assert(extract_all_outcome(source@, fs, anchor@, name@, pv, count as int, kind_view(kind), dialect, r));
            return r;
        },
    };
    let call = call_string(name, params);
    let found = if run.len() == 1 {
        let all = crate::rewrite::walk(forms.as_slice());
        node_sites_exec(run[0], &all)
    } else {
        let mut out: Vec<(usize, usize)> = Vec::new();
        wins_group_exec(forms.as_slice(), &run, &mut out);
        assert(out@ =~= wins_group(fs, rv));
        out
    };
    assert(found@ == struct_sites(rv, fs));
    let kept = outermost_exec(&found);
    let sites = if kept.len() == 0 {
        vec![(a, b)]
    } else {
        kept
    };
    assert(sites@ == all_sites(rv, fs, a as int, b as int));
    let at = enclosing_exec(forms.as_slice(), sites[0].0, sites[0].1);
    let bt = crate::format::byte_table(cs.as_slice());
    assert(byte_table_of(cs@, bt@));
    let mut dtext = def;
    let ghost d0 = dtext@;
    push_char(&mut dtext, '\n');
    push_char(&mut dtext, '\n');
    assert(dtext@ =~= d0 + seq!['\n', '\n']);
    let ghost ct = call_text(name@, pv);
    let ghost ts = extract_edits(source@, at as int, d0, int_spans(sites@), ct);
    let mut edits: Vec<Edit> = Vec::new();
    edits.push(edit_at(cs.as_slice(), &bt, at, at, dtext));
    let mut i: usize = 0;
    while i < sites.len()
        invariant
            byte_table_of(cs@, bt@),
            cs@ == source@,
            call@ == ct,
            i <= sites@.len(),
            edits@.len() == i + 1,
            ts == extract_edits(source@, at as int, d0, int_spans(sites@), ct),
            forall|q: int| 0 <= q < i + 1 ==> edit_is(#[trigger] edits@[q], ts[q]),
        decreases sites.len() - i,
    {
        let c = call.clone();
        assert(c@ == call@);
        let e = edit_at(cs.as_slice(), &bt, sites[i].0, sites[i].1, c);
        edits.push(e);
        i = i + 1;
    }
    let spans = landed_spans(&edits);
    let ghost es = edits@;
    assert(edits_are(es, ts));
    let n_sites = sites.len();
    let r = match splice(source, edits) {
        Ok(content) => Ok(ExtractPlan { content, sites: n_sites, spans }),
        Err(x) => Err(ExtractError::Splice(x)),
    };
    proof {
        if r is Ok {
            assert(ranges_are(r->Ok_0.spans@, all_landed(es)));
        }
        assert(extracted(source@, ts, n_sites as int, r));
    }
    assert(extract_all_outcome(source@, fs, anchor@, name@, pv, count as int, kind_view(kind), dialect, r));
    r
}

} // verus!
