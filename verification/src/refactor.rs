//! Semantic refactorings: atomic, parse-safe operations over the whole file,
//! each a composition of the structural edits, a splice, a reindent of the
//! touched forms and (outside this library) the validate-then-write.

use vstd::prelude::*;

use vstd::utf8::encode_utf8;

use crate::config::FormatConfig;
use crate::edit::{clamp_usize, landed, landed_spans, splice, splice_spec, Edit, SpliceError};
use crate::format::{byte_of, byte_table, elisp_specs, engine_of, formatted, reindent, touched_mask, Touched};
use crate::patch::{auto_formats, ranges_are};
use crate::reader::{dialect_name_spec, read, reads_as, Dialect, Node, Shape};
use crate::structural::{byte_table_of, edit_at, edits_are, et, rename_range, rename_range_any, seg, seg_string, EditT};
use crate::format::{node_string, node_text};
use crate::text::nl_count;
use crate::text::{chars_of, seq_eq};
use crate::write::WriteError;

verus! {

/// The result of a successful rename.
#[derive(Debug)]
pub struct RenameOutcome {
    /// How many occurrences were rewritten.
    pub renamed: usize,
    /// The file hash after the rename, over the reindented content.
    pub new_file_hash: String,
}

/// Why a rename was refused. No partial write ever happens on an error.
#[derive(Debug)]
pub enum RenameError {
    /// `from` and `to` are the same symbol: nothing to do.
    Unchanged,
    /// The symbol `from` does not occur in the file, so a typo'd name is
    /// reported rather than silently succeeding as a no-op.
    NoOccurrences(String),
    /// The edits could not be spliced.
    Splice(SpliceError),
    /// The safe write was refused (would introduce parse errors, or I/O).
    Write(WriteError),
    /// A filesystem error reading the file.
    Io(std::io::Error),
}

/// A rename's new content, before any reindent, with how many occurrences
/// it rewrote and the byte ranges their new text occupies in it.
pub struct RenamePlan {
    pub content: String,
    pub renamed: usize,
    pub spans: Vec<std::ops::Range<usize>>,
}

/// Where the texts of all of `es` land.
pub open spec fn all_landed(es: Seq<Edit>) -> Seq<(int, int)> {
    Seq::new(es.len(), |i: int| (clamp_usize(landed(es, i).0), clamp_usize(landed(es, i).1)))
}

/// What renaming every exact symbol `from` to `to` in `src`, read as
/// `forms`, gives.
pub open spec fn rename_outcome(src: Seq<char>, forms: Seq<Node>, from: Seq<char>, to: Seq<char>, r: Result<RenamePlan, RenameError>) -> bool {
    let ts = rename_range(src, from, to, forms, forms.len() as int);
    if ts.len() == 0 {
        r matches Err(RenameError::NoOccurrences(s)) && s@ == from
    } else {
        exists|es: Seq<Edit>|
            #[trigger] edits_are(es, ts) && match r {
                Ok(p) => splice_spec(encode_utf8(src), es) == Ok::<Seq<u8>, SpliceError>(encode_utf8(p.content@))
                    && p.renamed == es.len() && ranges_are(p.spans@, all_landed(es)),
                Err(RenameError::Splice(x)) => splice_spec(encode_utf8(src), es) == Err::<Seq<u8>, SpliceError>(x),
                _ => false,
            }
    }
}

/// Plan renaming every exact occurrence of the symbol `from` to `to` in
/// `source` (read as `dialect`): symbol-exact in code and data, never a
/// substring, a keyword, or text inside a string or comment. Refused when
/// `from` and `to` are the same, or when `from` never occurs.
pub fn plan_rename(source: &str, from: &str, to: &str, dialect: Dialect) -> (r: Result<RenamePlan, RenameError>)
    ensures
        from@ == to@ ==> r matches Err(RenameError::Unchanged),
        from@ != to@ ==> exists|forms: Seq<Node>|
            reads_as(source@, dialect_name_spec(dialect), false, forms) && #[trigger] rename_outcome(
                source@,
                forms,
                from@,
                to@,
                r,
            ),
{
    let fc = chars_of(from);
    let tc = chars_of(to);
    if seq_eq(fc.as_slice(), tc.as_slice()) {
        return Err(RenameError::Unchanged);
    }
    let forms = read(source, dialect, false);
    let cs = chars_of(source);
    let bt = byte_table(cs.as_slice());
    assert(byte_table_of(cs@, bt@));
    let mut edits: Vec<Edit> = Vec::new();
    assert(edits_are(edits@, Seq::<EditT>::empty()));
    rename_range_any(cs.as_slice(), &bt, fc.as_slice(), to, forms.as_slice(), &mut edits);
    let ghost ts = rename_range(source@, from@, to@, forms@, forms@.len() as int);
    assert(Seq::<EditT>::empty() + ts == ts);
    let renamed = edits.len();
    if renamed == 0 {
        let r = Err(RenameError::NoOccurrences(String::from_str(from)));
        assert(rename_outcome(source@, forms@, from@, to@, r));
        return r;
    }
    let spans = landed_spans(&edits);
    let ghost es = edits@;
    let r = match splice(source, edits) {
        Ok(content) => Ok(RenamePlan { content, renamed, spans }),
        Err(x) => Err(RenameError::Splice(x)),
    };
    proof {
        assert(edits_are(es, ts));
        if r is Ok {
            assert(ranges_are(r->Ok_0.spans@, all_landed(es)));
        }
    }
    assert(rename_outcome(source@, forms@, from@, to@, r));
    r
}

/// The content a refactoring writes: in a dialect the library auto-formats,
/// the top-level forms its edits touched (whose new text lies in `spans`)
/// reindented, as a rename or an inline changes token widths; elsewhere
/// the content unchanged.
pub open spec fn refactored(content: Seq<char>, spans: Seq<std::ops::Range<usize>>, dialect: Dialect, config: FormatConfig, r: Seq<char>) -> bool {
    &&& !auto_formats(dialect) ==> r == content
    &&& auto_formats(dialect) ==> exists|forms: Seq<Node>|
        reads_as(content, dialect_name_spec(dialect), true, forms) && r == formatted(
            engine_of(dialect),
            content,
            forms,
            elisp_specs(content),
            config,
            None,
            Some(#[trigger] touched_mask(content, forms, spans, Seq::empty())),
        )
}

pub(crate) fn reindent_spans(content: &String, spans: &Vec<std::ops::Range<usize>>, dialect: Dialect, config: &FormatConfig) -> (r: String)
    ensures
        refactored(content@, spans@, dialect, *config, r@),
{
    if !crate::patch::auto_formats_exec(dialect) {
        return content.clone();
    }
    let none: Vec<std::ops::Range<usize>> = Vec::new();
    let touched = Touched { expand: spans.as_slice(), exact: none.as_slice() };
    assert(none@ == Seq::<std::ops::Range<usize>>::empty());
    reindent(content.as_str(), config, dialect, None, touched)
}

/// The content a planned rename writes (see [`refactored`]).
pub fn finish_rename(plan: &RenamePlan, dialect: Dialect, config: &FormatConfig) -> (r: String)
    ensures
        refactored(plan.content@, plan.spans@, dialect, *config, r@),
{
    reindent_spans(&plan.content, &plan.spans, dialect, config)
}


// --- Inlining a function -----------------------------------------------------------------

/// The text of a symbol datum.
pub open spec fn sym(n: Node) -> Option<Seq<char>> {
    if n.shape == Shape::Symbol {
        Some(n.key@)
    } else {
        None
    }
}

/// The head symbol of a list.
pub open spec fn head_sym(n: Node) -> Option<Seq<char>> {
    if n.shape == Shape::List && n.items@.len() > 0 {
        sym(n.items@[0])
    } else {
        None
    }
}

pub open spec fn is_fn_def(h: Seq<char>) -> bool {
    h == "defun"@ || h == "defsubst"@ || h == "cl-defun"@ || h == "cl-defsubst"@
}

pub open spec fn is_macro_def(h: Seq<char>) -> bool {
    h == "defmacro"@ || h == "cl-defmacro"@ || h == "define-syntax"@ || h == "define-syntax-rule"@
        || h == "defmacro!"@
}

pub open spec fn is_var_def(h: Seq<char>) -> bool {
    h == "defvar"@ || h == "defvar-local"@ || h == "defconst"@ || h == "defconstant"@ || h
        == "defcustom"@ || h == "defparameter"@
}

/// The required parameters among `items[from..k]`, or why the lambda list
/// cannot inline: the first `&`-keyword or non-symbol parameter.
pub open spec fn params_from(items: Seq<Node>, from: int, k: int) -> Result<Seq<Seq<char>>, Seq<char>>
    decreases k - from,
{
    if k <= from {
        Ok(Seq::empty())
    } else {
        match params_from(items, from, k - 1) {
            Err(e) => Err(e),
            Ok(ps) => match sym(items[k - 1]) {
                Some(s) => if s.len() > 0 && s[0] == '&' {
                    Err("argument list has `"@ + s + "` (only required parameters inline)"@)
                } else {
                    Ok(ps.push(s))
                },
                None => Err("argument list has a non-symbol parameter (destructuring)"@),
            },
        }
    }
}

/// The body of a definition whose body forms are `items[s..]`: a leading
/// docstring (when it is not the only form) and a leading `(declare …)`
/// dropped; an empty body is refused. The body is `items[b..]` for the `b`
/// returned.
pub open spec fn finish_body(name: Seq<char>, items: Seq<Node>, s: int, params: Seq<Seq<char>>) -> Result<(Seq<Seq<char>>, int), Seq<char>> {
    let b1 = if items.len() - s > 1 && items[s].shape == Shape::Str {
        s + 1
    } else {
        s
    };
    let b2 = if b1 < items.len() && head_sym(items[b1]) == Some("declare"@) {
        b1 + 1
    } else {
        b1
    };
    if b2 >= items.len() {
        Err("`"@ + name + "` has an empty body"@)
    } else {
        Ok((params, b2))
    }
}

/// How a top-level `form` stands to `name`: not a definition of it
/// (`None`), a definition that cannot inline (with the reason), or an
/// inlinable function definition with its parameters and the index in
/// `form.items` where its body starts.
pub open spec fn classify_def(name: Seq<char>, form: Node) -> Option<Result<(Seq<Seq<char>>, int), Seq<char>>> {
    let items = form.items@;
    if form.shape != Shape::List || items.len() == 0 {
        None
    } else {
        match sym(items[0]) {
            None => None,
            Some(h) => if is_fn_def(h) {
                if items.len() < 2 || sym(items[1]) != Some(name) {
                    None
                } else if items.len() < 3 {
                    Some(Err("definition has no argument list"@))
                } else if items[2].shape != Shape::List {
                    Some(Err("argument list is not a list"@))
                } else {
                    match params_from(items[2].items@, 0, items[2].items@.len() as int) {
                        Err(e) => Some(Err(e)),
                        Ok(ps) => Some(finish_body(name, items, 3, ps)),
                    }
                }
            } else if is_macro_def(h) {
                if items.len() >= 2 && sym(items[1]) == Some(name) {
                    Some(Err("`"@ + name + "` is a macro"@))
                } else {
                    None
                }
            } else if is_var_def(h) {
                if items.len() >= 2 && sym(items[1]) == Some(name) {
                    Some(Err("`"@ + name + "` is a variable, not a function"@))
                } else {
                    None
                }
            } else if h == "define"@ || h == "define*"@ {
                if items.len() < 2 {
                    None
                } else if items[1].shape == Shape::List {
                    let sig = items[1].items@;
                    if sig.len() == 0 || sym(sig[0]) != Some(name) {
                        None
                    } else {
                        match params_from(sig, 1, sig.len() as int) {
                            Err(e) => Some(Err(e)),
                            Ok(ps) => Some(finish_body(name, items, 2, ps)),
                        }
                    }
                } else if sym(items[1]) == Some(name) {
                    Some(Err("`"@ + name + "` is a value, not a function"@))
                } else {
                    None
                }
            } else {
                None
            },
        }
    }
}

fn sym_is(n: &Node, name: &[char]) -> (b: bool)
    ensures
        b == (sym(*n) == Some(name@)),
{
    match n.shape {
        Shape::Symbol => {
            let k = chars_of(n.key.as_str());
            seq_eq(k.as_slice(), name)
        },
        _ => false,
    }
}

fn key_is(n: &Node, lit: &str) -> (b: bool)
    ensures
        b == (sym(*n) == Some(lit@)),
{
    let l = chars_of(lit);
    sym_is(n, l.as_slice())
}

fn head_is(n: &Node, lit: &str) -> (b: bool)
    ensures
        b == (head_sym(*n) == Some(lit@)),
{
    match n.shape {
        Shape::List => n.items.len() > 0 && key_is(&n.items[0], lit),
        _ => false,
    }
}

fn backticked(name: &[char], rest: &str) -> (s: String)
    ensures
        s@ == "`"@ + name@ + rest@,
{
    proof {
        reveal_strlit("`");
    }
    let mut s = String::from_str("`");
    crate::text::push_chars(&mut s, name);
    s.append(rest);
    s
}

fn params_exec(items: &[Node], from: usize) -> (r: Result<Vec<String>, String>)
    requires
        from <= items@.len(),
    ensures
        match params_from(items@, from as int, items@.len() as int) {
            Ok(ps) => r matches Ok(v) && v@.len() == ps.len() && forall|q: int| 0 <= q < ps.len() ==> #[trigger] v@[q]@ == ps[q],
            Err(e) => r matches Err(m) && m@ == e,
        },
{
    let mut v: Vec<String> = Vec::new();
    let mut k = from;
    while k < items.len()
        invariant
            from <= k <= items@.len(),
            params_from(items@, from as int, k as int) matches Ok(ps) && v@.len() == ps.len() && forall|q: int| 0 <= q < ps.len() ==> #[trigger] v@[q]@ == ps[q],
        decreases items.len() - k,
    {
        let it = &items[k];
        let is_sym = match it.shape {
            Shape::Symbol => true,
            _ => false,
        };
        if !is_sym {
            let r = Err(String::from_str("argument list has a non-symbol parameter (destructuring)"));
            proof {
                lemma_params_err(items@, from as int, k + 1, items@.len() as int);
            }
            return r;
        }
        let kc = chars_of(it.key.as_str());
        if kc.len() > 0 && kc[0] == '&' {
            let mut m = String::from_str("argument list has `");
            m.append(it.key.as_str());
            m.append("` (only required parameters inline)");
            proof {
                reveal_strlit("argument list has `");
                reveal_strlit("` (only required parameters inline)");
                lemma_params_err(items@, from as int, k + 1, items@.len() as int);
            }
            return Err(m);
        }
        let ghost v0 = v@;
        v.push(it.key.clone());
        proof {
            assert forall|q: int| 0 <= q < v@.len() implies #[trigger] v@[q]@ == params_from(items@, from as int, k + 1)->Ok_0[q] by {
                if q < v0.len() {
                    assert(v@[q] == v0[q]);
                }
            }
        }
        k = k + 1;
    }
    Ok(v)
}

proof fn lemma_params_err(items: Seq<Node>, from: int, k: int, n: int)
    requires
        from <= k <= n,
        params_from(items, from, k) is Err,
    ensures
        params_from(items, from, n) == params_from(items, from, k),
    decreases n - k,
{
    if n > k {
        lemma_params_err(items, from, k, n - 1);
    }
}

fn finish_body_exec(name: &[char], items: &[Node], s: usize, params: Vec<String>) -> (r: Result<(Vec<String>, usize), String>)
    requires
        s <= items@.len(),
    ensures
        match finish_body(name@, items@, s as int, params@.map_values(|p: String| p@)) {
            Ok((_, b)) => r matches Ok((v, b2)) && v@ == params@ && b2 == b,
            Err(e) => r matches Err(m) && m@ == e,
        },
{
    let len = items.len();
    let b1 = if len - s > 1 && match items[s].shape {
        Shape::Str => true,
        _ => false,
    } {
        s + 1
    } else {
        s
    };
    let b2 = if b1 < len && head_is(&items[b1], "declare") {
        b1 + 1
    } else {
        b1
    };
    if b2 >= len {
        proof {
            reveal_strlit("` has an empty body");
        }
        return Err(backticked(name, "` has an empty body"));
    }
    Ok((params, b2))
}

/// [`classify_def`] computed.
fn classify_exec(name: &[char], form: &Node) -> (r: Option<Result<(Vec<String>, usize), String>>)
    ensures
        match classify_def(name@, *form) {
            None => r is None,
            Some(Err(e)) => r matches Some(Err(m)) && m@ == e,
            Some(Ok((ps, b))) => r matches Some(Ok((v, b2))) && v@.map_values(|p: String| p@) == ps && b2 == b,
        },
{
    proof {
        reveal_strlit("defun");
        reveal_strlit("defsubst");
        reveal_strlit("cl-defun");
        reveal_strlit("cl-defsubst");
        reveal_strlit("defmacro");
        reveal_strlit("cl-defmacro");
        reveal_strlit("define-syntax");
        reveal_strlit("define-syntax-rule");
        reveal_strlit("defmacro!");
        reveal_strlit("defvar");
        reveal_strlit("defvar-local");
        reveal_strlit("defconst");
        reveal_strlit("defconstant");
        reveal_strlit("defcustom");
        reveal_strlit("defparameter");
        reveal_strlit("define");
        reveal_strlit("define*");
    }
    let items = &form.items;
    let is_list = match form.shape {
        Shape::List => true,
        _ => false,
    };
    if !is_list || items.len() == 0 {
        return None;
    }
    let h0 = &items[0];
    match h0.shape {
        Shape::Symbol => {},
        _ => {
            return None;
        },
    }
    let h = chars_of(h0.key.as_str());
    let hs = h.as_slice();
    let fn_def = crate::text::eq_lit(hs, "defun") || crate::text::eq_lit(hs, "defsubst") || crate::text::eq_lit(hs, "cl-defun")
        || crate::text::eq_lit(hs, "cl-defsubst");
    if fn_def {
        if items.len() < 2 || !sym_is(&items[1], name) {
            return None;
        }
        if items.len() < 3 {
            return Some(Err(String::from_str("definition has no argument list")));
        }
        let al = &items[2];
        match al.shape {
            Shape::List => {},
            _ => {
                return Some(Err(String::from_str("argument list is not a list")));
            },
        }
        return match params_exec(al.items.as_slice(), 0) {
            Err(e) => Some(Err(e)),
            Ok(ps) => {
                let ghost pv = ps@;
                proof {
                    assert(pv.map_values(|p: String| p@) =~= params_from(al.items@, 0, al.items@.len() as int)->Ok_0);
                }
                match finish_body_exec(name, items.as_slice(), 3, ps) {
                    Ok(x) => Some(Ok(x)),
                    Err(e) => Some(Err(e)),
                }
            },
        };
    }
    let macro_def = crate::text::eq_lit(hs, "defmacro") || crate::text::eq_lit(hs, "cl-defmacro") || crate::text::eq_lit(
        hs,
        "define-syntax",
    ) || crate::text::eq_lit(hs, "define-syntax-rule") || crate::text::eq_lit(hs, "defmacro!");
    if macro_def {
        proof {
            reveal_strlit("` is a macro");
        }
        if items.len() >= 2 && sym_is(&items[1], name) {
            return Some(Err(backticked(name, "` is a macro")));
        }
        return None;
    }
    let var_def = crate::text::eq_lit(hs, "defvar") || crate::text::eq_lit(hs, "defvar-local") || crate::text::eq_lit(hs, "defconst")
        || crate::text::eq_lit(hs, "defconstant") || crate::text::eq_lit(hs, "defcustom") || crate::text::eq_lit(
        hs,
        "defparameter",
    );
    if var_def {
        proof {
            reveal_strlit("` is a variable, not a function");
        }
        if items.len() >= 2 && sym_is(&items[1], name) {
            return Some(Err(backticked(name, "` is a variable, not a function")));
        }
        return None;
    }
    if crate::text::eq_lit(hs, "define") || crate::text::eq_lit(hs, "define*") {
        if items.len() < 2 {
            return None;
        }
        let x = &items[1];
        match x.shape {
            Shape::List => {
                let sig = &x.items;
                if sig.len() == 0 || !sym_is(&sig[0], name) {
                    return None;
                }
                return match params_exec(sig.as_slice(), 1) {
                    Err(e) => Some(Err(e)),
                    Ok(ps) => {
                        let ghost pv = ps@;
                        proof {
                            assert(pv.map_values(|p: String| p@) =~= params_from(sig@, 1, sig@.len() as int)->Ok_0);
                        }
                        match finish_body_exec(name, items.as_slice(), 2, ps) {
                            Ok(x) => Some(Ok(x)),
                            Err(e) => Some(Err(e)),
                        }
                    },
                };
            },
            _ => {},
        }
        if sym_is(x, name) {
            proof {
                reveal_strlit("` is a value, not a function");
            }
            return Some(Err(backticked(name, "` is a value, not a function")));
        }
        return None;
    }
    None
}


/// What scanning `forms[..k]` for definitions of `name` finds: how many
/// there are, the last inlinable one (its index, parameters and body
/// start), and the first reason one cannot inline.
pub open spec fn scan_defs(name: Seq<char>, forms: Seq<Node>, k: int) -> (nat, Option<(int, Seq<Seq<char>>, int)>, Option<Seq<char>>)
    decreases k,
{
    if k <= 0 || k > forms.len() {
        (0, None, None)
    } else {
        let (c, m, r) = scan_defs(name, forms, k - 1);
        match classify_def(name, forms[k - 1]) {
            None => (c, m, r),
            Some(Err(e)) => (c + 1, m, if r is None {
                Some(e)
            } else {
                r
            }),
            Some(Ok((ps, b))) => (c + 1, Some((k - 1, ps, b)), r),
        }
    }
}

/// Whether `name` occurs as a symbol among `items[..k]`.
pub open spec fn refs_range(name: Seq<char>, items: Seq<Node>, k: int) -> bool
    decreases items, k,
{
    if k <= 0 || k > items.len() {
        false
    } else {
        refs_range(name, items, k - 1) || refs(name, items[k - 1])
    }
}

pub open spec fn refs_opt(name: Seq<char>, o: Option<Box<Node>>) -> bool
    decreases o, 1int,
{
    match o {
        Some(x) => refs(name, *x),
        None => false,
    }
}

/// Whether `name` occurs as a symbol in `n`, through list items and tails
/// and reader macros.
pub open spec fn refs(name: Seq<char>, n: Node) -> bool
    decreases n, 0int,
{
    match n.shape {
        Shape::Symbol => n.key@ == name,
        Shape::List => refs_range(name, n.items@, n.items@.len() as int) || refs_opt(name, n.tail),
        Shape::Prefixed => refs_opt(name, n.inner) || refs_opt(name, n.arg),
        _ => false,
    }
}

fn refs_range_exec(name: &[char], items: &[Node]) -> (b: bool)
    ensures
        b == refs_range(name@, items@, items@.len() as int),
    decreases items@, 2int,
{
    let mut k: usize = 0;
    while k < items.len()
        invariant
            k <= items@.len(),
            !refs_range(name@, items@, k as int),
        decreases items.len() - k,
    {
        if refs_exec(name, &items[k]) {
            proof {
                lemma_refs_grow(name@, items@, k + 1, items@.len() as int);
            }
            return true;
        }
        k = k + 1;
    }
    false
}

proof fn lemma_refs_grow(name: Seq<char>, items: Seq<Node>, k: int, n: int)
    requires
        0 <= k <= n <= items.len(),
        refs_range(name, items, k),
    ensures
        refs_range(name, items, n),
    decreases n - k,
{
    if n > k {
        lemma_refs_grow(name, items, k, n - 1);
    }
}

fn refs_opt_exec(name: &[char], o: &Option<Box<Node>>) -> (b: bool)
    ensures
        b == refs_opt(name@, *o),
    decreases *o, 1int,
{
    match o {
        Some(x) => refs_exec(name, x),
        None => false,
    }
}

fn refs_exec(name: &[char], n: &Node) -> (b: bool)
    ensures
        b == refs(name@, *n),
    decreases *n, 0int,
{
    match n.shape {
        Shape::Symbol => {
            let k = chars_of(n.key.as_str());
            seq_eq(k.as_slice(), name)
        },
        Shape::List => refs_range_exec(name, n.items.as_slice()) || refs_opt_exec(name, &n.tail),
        Shape::Prefixed => refs_opt_exec(name, &n.inner) || refs_opt_exec(name, &n.arg),
        _ => false,
    }
}

/// The byte spans of the nodes `lispexp`'s walk classes as code in the data
/// it reads from `source` under the preset for the dialect named `dialect`.
pub uninterp spec fn code_spans(source: Seq<char>, dialect: Seq<char>) -> Seq<(u32, u32)>;

/// `lispexp::code_nodes` over what `lispexp::parse` reads from `source`
/// under the preset for the dialect named `dialect`: the byte span of each
/// node it yields (every node the walk classes `Class::Code`). What that
/// classification is, is not stated here: the result is a function of the
/// two arguments, named [`code_spans`].
#[verifier::external_body]
fn lx_code_spans(source: &str, dialect: &str) -> (r: Vec<(u32, u32)>)
    ensures
        r@ == code_spans(source@, dialect@),
{
    let options = lispexp::Options::for_dialect(dialect.parse().unwrap_or(lispexp::Dialect::SchemeSuperset));
    let parsed = lispexp::parse(source, &options);
    lispexp::code_nodes(&parsed.data).map(|d| (d.span.start, d.span.end)).collect()
}

/// Whether `n`'s byte span is one the walk classes as code.
pub open spec fn in_code(src: Seq<char>, code: Seq<(u32, u32)>, n: Node) -> bool {
    exists|k: int|
        0 <= k < code.len() && #[trigger] code[k].0 == byte_of(src, n.start as int) && code[k].1
            == byte_of(src, n.end as int)
}

/// Whether `n` is a call `(name …)` in code position outside the
/// definition `def`.
pub open spec fn is_call(src: Seq<char>, code: Seq<(u32, u32)>, name: Seq<char>, def: Node, n: Node) -> bool {
    &&& head_sym(n) == Some(name)
    &&& in_code(src, code, n)
    &&& !(def.start <= n.start && n.end <= def.end)
}

/// The calls among `data[..k]`, in pre-order.
pub open spec fn calls_range(src: Seq<char>, code: Seq<(u32, u32)>, name: Seq<char>, def: Node, data: Seq<Node>, k: int) -> Seq<Node>
    decreases data, k,
{
    if k <= 0 || k > data.len() {
        Seq::empty()
    } else {
        calls_range(src, code, name, def, data, k - 1) + calls_in(src, code, name, def, data[k - 1])
    }
}

pub open spec fn calls_opt(src: Seq<char>, code: Seq<(u32, u32)>, name: Seq<char>, def: Node, o: Option<Box<Node>>) -> Seq<Node>
    decreases o, 1int,
{
    match o {
        Some(x) => calls_in(src, code, name, def, *x),
        None => Seq::empty(),
    }
}

/// The calls in the subtree of `n`, `n` first, then through list items
/// and tail, a reader macro's auxiliary datum and target, and the datum of
/// a `#tag` form or label.
pub open spec fn calls_in(src: Seq<char>, code: Seq<(u32, u32)>, name: Seq<char>, def: Node, n: Node) -> Seq<Node>
    decreases n, 0int,
{
    (if is_call(src, code, name, def, n) {
        seq![n]
    } else {
        Seq::empty()
    }) + match n.shape {
        Shape::List => calls_range(src, code, name, def, n.items@, n.items@.len() as int) + calls_opt(
            src,
            code,
            name,
            def,
            n.tail,
        ),
        Shape::Prefixed => calls_opt(src, code, name, def, n.arg) + calls_opt(src, code, name, def, n.inner),
        Shape::HashLiteral | Shape::Label => calls_opt(src, code, name, def, n.inner),
        _ => Seq::empty(),
    }
}

/// What the exec walk carries along: the source's characters and byte
/// table, the code spans, the name and the definition.
pub struct CallScan<'a> {
    pub cs: &'a [char],
    pub bt: &'a Vec<usize>,
    pub code: &'a Vec<(u32, u32)>,
    pub name: &'a [char],
    pub def: &'a Node,
}

pub open spec fn scan_ok(c: CallScan) -> bool {
    byte_table_of(c.cs@, c.bt@)
}

fn in_code_exec(c: &CallScan, n: &Node) -> (b: bool)
    requires
        scan_ok(*c),
    ensures
        b == in_code(c.cs@, c.code@, *n),
{
    let bs = crate::structural::bpos_of(c.cs, c.bt, n.start);
    let be = crate::structural::bpos_of(c.cs, c.bt, n.end);
    let mut k: usize = 0;
    while k < c.code.len()
        invariant
            k <= c.code@.len(),
            bs == byte_of(c.cs@, n.start as int),
            be == byte_of(c.cs@, n.end as int),
            forall|q: int| 0 <= q < k ==> !(#[trigger] c.code@[q].0 == bs && c.code@[q].1 == be),
        decreases c.code.len() - k,
    {
        if c.code[k].0 as usize == bs && c.code[k].1 as usize == be {
            return true;
        }
        k = k + 1;
    }
    false
}

/// Whether `f` is `o` followed by (references to) the nodes `x`.
pub open spec fn extends<'n>(o: Seq<&'n Node>, f: Seq<&'n Node>, x: Seq<Node>) -> bool {
    &&& f.len() == o.len() + x.len()
    &&& forall|i: int| 0 <= i < o.len() ==> f[i] == o[i]
    &&& forall|i: int| 0 <= i < x.len() ==> *(#[trigger] f[o.len() + i]) == x[i]
}

pub(crate) proof fn lemma_extends<'n>(o: Seq<&'n Node>, m: Seq<&'n Node>, f: Seq<&'n Node>, x: Seq<Node>, y: Seq<Node>)
    requires
        extends(o, m, x),
        extends(m, f, y),
    ensures
        extends(o, f, x + y),
{
    assert forall|i: int| 0 <= i < (x + y).len() implies *(#[trigger] f[o.len() + i]) == (x + y)[i] by {
        if i < x.len() {
            assert(f[o.len() + i] == m[o.len() + i]);
        } else {
            assert(f[o.len() + i] == f[m.len() + (i - x.len())]);
        }
    }
}

fn calls_in_exec<'n>(c: &CallScan, n: &'n Node, out: &mut Vec<&'n Node>)
    requires
        scan_ok(*c),
    ensures
        extends(old(out)@, final(out)@, calls_in(c.cs@, c.code@, c.name@, *c.def, *n)),
    decreases *n, 0int,
{
    let ghost o0 = old(out)@;
    let call = head_is_name(n, c.name) && in_code_exec(c, n) && !(c.def.start <= n.start && n.end <= c.def.end);
    let ghost x = if is_call(c.cs@, c.code@, c.name@, *c.def, *n) {
        seq![*n]
    } else {
        Seq::<Node>::empty()
    };
    if call {
        out.push(n);
    }
    let ghost o1 = out@;
    assert(extends(o0, o1, x));
    match n.shape {
        Shape::List => {
            calls_range_exec(c, n.items.as_slice(), out);
            let ghost o2 = out@;
            calls_opt_exec(c, &n.tail, out);
            proof {
                let y = calls_range(c.cs@, c.code@, c.name@, *c.def, n.items@, n.items@.len() as int);
                let z = calls_opt(c.cs@, c.code@, c.name@, *c.def, n.tail);
                lemma_extends(o1, o2, out@, y, z);
                lemma_extends(o0, o1, out@, x, y + z);
                assert(x + (y + z) == calls_in(c.cs@, c.code@, c.name@, *c.def, *n));
            }
        },
        Shape::Prefixed => {
            calls_opt_exec(c, &n.arg, out);
            let ghost o2 = out@;
            calls_opt_exec(c, &n.inner, out);
            proof {
                let y = calls_opt(c.cs@, c.code@, c.name@, *c.def, n.arg);
                let z = calls_opt(c.cs@, c.code@, c.name@, *c.def, n.inner);
                lemma_extends(o1, o2, out@, y, z);
                lemma_extends(o0, o1, out@, x, y + z);
                assert(x + (y + z) == calls_in(c.cs@, c.code@, c.name@, *c.def, *n));
            }
        },
        Shape::HashLiteral | Shape::Label => {
            calls_opt_exec(c, &n.inner, out);
            proof {
                let y = calls_opt(c.cs@, c.code@, c.name@, *c.def, n.inner);
                lemma_extends(o0, o1, out@, x, y);
            }
        },
        _ => {
            assert(x + Seq::<Node>::empty() == x);
        },
    }
}

fn calls_opt_exec<'n>(c: &CallScan, o: &'n Option<Box<Node>>, out: &mut Vec<&'n Node>)
    requires
        scan_ok(*c),
    ensures
        extends(old(out)@, final(out)@, calls_opt(c.cs@, c.code@, c.name@, *c.def, *o)),
    decreases *o, 1int,
{
    match o {
        Some(x) => calls_in_exec(c, x, out),
        None => {},
    }
}

fn calls_range_exec<'n>(c: &CallScan, data: &'n [Node], out: &mut Vec<&'n Node>)
    requires
        scan_ok(*c),
    ensures
        extends(old(out)@, final(out)@, calls_range(c.cs@, c.code@, c.name@, *c.def, data@, data@.len() as int)),
    decreases data@, 2int,
{
    let ghost o0 = old(out)@;
    let mut k: usize = 0;
    assert(extends(o0, out@, calls_range(c.cs@, c.code@, c.name@, *c.def, data@, 0)));
    while k < data.len()
        invariant
            scan_ok(*c),
            k <= data@.len(),
            extends(o0, out@, calls_range(c.cs@, c.code@, c.name@, *c.def, data@, k as int)),
        decreases data.len() - k,
    {
        let ghost o1 = out@;
        calls_in_exec(c, &data[k], out);
        proof {
            let x = calls_range(c.cs@, c.code@, c.name@, *c.def, data@, k as int);
            let y = calls_in(c.cs@, c.code@, c.name@, *c.def, data@[k as int]);
            lemma_extends(o0, o1, out@, x, y);
        }
        k = k + 1;
    }
}

fn head_is_name(n: &Node, name: &[char]) -> (b: bool)
    ensures
        b == (head_sym(*n) == Some(name@)),
{
    match n.shape {
        Shape::List => n.items.len() > 0 && sym_is(&n.items[0], name),
        _ => false,
    }
}


// --- Ordering and expanding the calls ------------------------------------------------------

/// Whether call `i` sorts no later than call `j`: by start, the longer
/// (enclosing) one first.
pub open spec fn call_le(cs: Seq<Node>, i: usize, j: usize) -> bool {
    cs[i as int].start < cs[j as int].start || (cs[i as int].start == cs[j as int].start && cs[i as int].end
        >= cs[j as int].end)
}

pub open spec fn insert_call(cs: Seq<Node>, s: Seq<usize>, u: usize) -> Seq<usize>
    decreases s.len(),
{
    if s.len() == 0 {
        seq![u]
    } else if call_le(cs, s.last(), u) {
        s.push(u)
    } else {
        insert_call(cs, s.drop_last(), u).push(s.last())
    }
}

/// Call indices `s` stably sorted by start, enclosing calls first.
pub open spec fn sort_calls(cs: Seq<Node>, s: Seq<usize>) -> Seq<usize>
    decreases s.len(),
{
    if s.len() == 0 {
        s
    } else {
        insert_call(cs, sort_calls(cs, s.drop_last()), s.last())
    }
}

pub open spec fn all_idx(n: int) -> Seq<usize> {
    Seq::new(n as nat, |i: int| i as usize)
}

/// The outermost calls among the sorted `s[..k]` (a call starting before
/// the end of the last kept one is nested in it), and the end of the last
/// kept one.
pub open spec fn keep_outer(cs: Seq<Node>, s: Seq<usize>, k: int) -> (Seq<usize>, int)
    decreases k,
{
    if k <= 0 || k > s.len() {
        (Seq::empty(), 0)
    } else {
        let (kept, cov) = keep_outer(cs, s, k - 1);
        if cs[s[k - 1] as int].start >= cov {
            (kept.push(s[k - 1]), cs[s[k - 1] as int].end as int)
        } else {
            (kept, cov)
        }
    }
}

/// The first of the kept calls `kept[..k]` whose argument count is not
/// `np`, by its position.
pub open spec fn arity_fault(cs: Seq<Node>, kept: Seq<usize>, np: int, k: int) -> Option<int>
    decreases k,
{
    if k <= 0 || k > kept.len() {
        None
    } else {
        match arity_fault(cs, kept, np, k - 1) {
            Some(i) => Some(i),
            None => if cs[kept[k - 1] as int].items@.len() - 1 != np {
                Some(k - 1)
            } else {
                None
            },
        }
    }
}

/// The text of a body `items[b..]`, verbatim from its first form's start to
/// its last form's end.
pub open spec fn body_text(src: Seq<char>, items: Seq<Node>, b: int) -> Seq<char> {
    seg(src, items[b].start as int, items[items.len() - 1].end as int)
}

pub open spec fn binding(src: Seq<char>, p: Seq<char>, a: Node) -> Seq<char> {
    "("@ + p + " "@ + node_text(src, a) + ")"@
}

/// The `let` bindings of the first `k` parameters to the call's arguments.
pub open spec fn bindings(src: Seq<char>, ps: Seq<Seq<char>>, call: Node, k: int) -> Seq<char>
    decreases k,
{
    if k <= 0 {
        Seq::empty()
    } else if k == 1 {
        binding(src, ps[0], call.items@[1])
    } else {
        bindings(src, ps, call, k - 1) + " "@ + binding(src, ps[k - 1], call.items@[k])
    }
}

/// What replaces a call: the body itself (in a `progn` when it has several
/// forms) for a function without parameters, else `(let ((p a) …) body)`,
/// which keeps the arguments evaluated once and in order.
pub open spec fn call_text(src: Seq<char>, ps: Seq<Seq<char>>, call: Node, body: Seq<char>, multi: bool) -> Seq<char> {
    if ps.len() == 0 {
        if multi {
            "(progn "@ + body + ")"@
        } else {
            body
        }
    } else {
        "(let ("@ + bindings(src, ps, call, ps.len() as int) + ") "@ + body + ")"@
    }
}

pub open spec fn inline_edits(src: Seq<char>, ps: Seq<Seq<char>>, cs: Seq<Node>, kept: Seq<usize>, body: Seq<char>, multi: bool) -> Seq<EditT> {
    Seq::new(
        kept.len(),
        |i: int|
            et(
                src,
                cs[kept[i] as int].start as int,
                cs[kept[i] as int].end as int,
                call_text(src, ps, cs[kept[i] as int], body, multi),
            ),
    )
}

/// The result of a successful inline.
#[derive(Debug)]
pub struct InlineOutcome {
    /// How many call sites were expanded.
    pub inlined: usize,
    /// The file hash after inlining, over the reindented content.
    pub new_file_hash: String,
}

/// Why an inline was refused. No partial write ever happens on an error.
#[derive(Debug)]
pub enum InlineError {
    /// No definition of the name was found in the file.
    NotFound(String),
    /// The name is defined more than once.
    Ambiguous(String),
    /// The name is defined, but not as an inlinable function; the string
    /// says why.
    NotInlinable(String),
    /// A call site has the wrong number of arguments for the definition.
    ArityMismatch {
        /// Parameters the definition declares.
        expected: usize,
        /// Arguments the call passes.
        found: usize,
        /// 1-based line of the offending call.
        line: usize,
    },
    /// The name is defined but never called.
    NoCallSites(String),
    /// The edits could not be spliced.
    Splice(SpliceError),
    /// The safe write was refused.
    Write(WriteError),
    /// A filesystem error.
    Io(std::io::Error),
}

/// An inline's new content, before any reindent, with how many calls it
/// expanded and where their new text lies.
pub struct InlinePlan {
    pub content: String,
    pub inlined: usize,
    pub spans: Vec<std::ops::Range<usize>>,
}

/// The edits of an inline, once the one definition is found: `forms[fi]`,
/// with parameters `ps` and its body from item `b` on.
pub open spec fn inline_want(src: Seq<char>, code: Seq<(u32, u32)>, forms: Seq<Node>, name: Seq<char>, fi: int, ps: Seq<Seq<char>>, b: int) -> Seq<EditT> {
    let def = forms[fi];
    let items = def.items@;
    let cs = calls_range(src, code, name, def, forms, forms.len() as int);
    let kept = keep_outer(cs, sort_calls(cs, all_idx(cs.len() as int)), cs.len() as int).0;
    inline_edits(src, ps, cs, kept, body_text(src, items, b), items.len() - b > 1)
}

/// What inlining gives once the one definition is found: `forms[fi]`, with
/// parameters `ps` and its body from item `b` on.
pub open spec fn inline_found(src: Seq<char>, code: Seq<(u32, u32)>, forms: Seq<Node>, name: Seq<char>, fi: int, ps: Seq<Seq<char>>, b: int, r: Result<InlinePlan, InlineError>) -> bool {
    let def = forms[fi];
    let items = def.items@;
    if refs_range(name, items.subrange(b, items.len() as int), items.len() - b) {
        r matches Err(InlineError::NotInlinable(s)) && s@ == "`"@ + name + "` is recursive"@
    } else {
        let cs = calls_range(src, code, name, def, forms, forms.len() as int);
        if cs.len() == 0 {
            r matches Err(InlineError::NoCallSites(s)) && s@ == name
        } else {
            let kept = keep_outer(cs, sort_calls(cs, all_idx(cs.len() as int)), cs.len() as int).0;
            let want = inline_want(src, code, forms, name, fi, ps, b);
            match arity_fault(cs, kept, ps.len() as int, kept.len() as int) {
                Some(i) => r matches Err(InlineError::ArityMismatch { expected, found, line })
                    && expected == ps.len() && found == cs[kept[i] as int].items@.len() - 1
                    && line == clamp_usize(nl_count(src, cs[kept[i] as int].start as int) + 1int),
                None => exists|es: Seq<Edit>|
                    #[trigger] edits_are(es, want) && match r {
                        Ok(p) => splice_spec(encode_utf8(src), es) == Ok::<Seq<u8>, SpliceError>(
                            encode_utf8(p.content@),
                        ) && p.inlined == es.len() && ranges_are(p.spans@, all_landed(es)),
                        Err(InlineError::Splice(x)) => splice_spec(encode_utf8(src), es) == Err::<
                            Seq<u8>,
                            SpliceError,
                        >(x),
                        _ => false,
                    },
            }
        }
    }
}

/// What inlining `name` in `src`, read as `forms` with `code` the spans
/// classed as code, gives.
pub open spec fn inline_outcome(src: Seq<char>, code: Seq<(u32, u32)>, forms: Seq<Node>, name: Seq<char>, r: Result<InlinePlan, InlineError>) -> bool {
    let (count, matched, refuse) = scan_defs(name, forms, forms.len() as int);
    if count == 0 {
        r matches Err(InlineError::NotFound(s)) && s@ == name
    } else if count > 1 {
        r matches Err(InlineError::Ambiguous(s)) && s@ == name
    } else {
        match matched {
            None => r matches Err(InlineError::NotInlinable(s)) && s@ == match refuse {
                Some(x) => x,
                None => "not an inlinable function"@,
            },
            Some((fi, ps, b)) => inline_found(src, code, forms, name, fi, ps, b, r),
        }
    }
}


/// The nodes the references in `s` point to.
pub open spec fn derefs<'n>(s: Seq<&'n Node>) -> Seq<Node> {
    Seq::new(s.len(), |i: int| *s[i])
}

fn insert_call_exec(calls: &Vec<&Node>, sorted: &mut Vec<usize>, u: usize)
    requires
        u < calls@.len(),
        forall|q: int| 0 <= q < old(sorted)@.len() ==> old(sorted)@[q] < calls@.len(),
    ensures
        final(sorted)@ == insert_call(derefs(calls@), old(sorted)@, u),
        forall|q: int| 0 <= q < final(sorted)@.len() ==> final(sorted)@[q] < calls@.len(),
{
    let ghost cv = derefs(calls@);
    let mut p = sorted.len();
    assert(sorted@.subrange(0, p as int) == sorted@);
    while p > 0 && !(calls[sorted[p - 1]].start < calls[u].start || (calls[sorted[p - 1]].start
        == calls[u].start && calls[sorted[p - 1]].end >= calls[u].end))
        invariant
            cv == derefs(calls@),
            u < calls@.len(),
            forall|q: int| 0 <= q < sorted@.len() ==> sorted@[q] < calls@.len(),
            p <= sorted@.len(),
            sorted@ == old(sorted)@,
            insert_call(cv, sorted@, u) == insert_call(cv, sorted@.subrange(0, p as int), u)
                + sorted@.subrange(p as int, sorted@.len() as int),
        decreases p,
    {
        let ghost s = sorted@.subrange(0, p as int);
        assert(s.drop_last() == sorted@.subrange(0, p - 1));
        assert(s.last() == sorted@[p - 1]);
        assert(seq![sorted@[p - 1]] + sorted@.subrange(p as int, sorted@.len() as int)
            == sorted@.subrange(p - 1, sorted@.len() as int));
        p = p - 1;
    }
    proof {
        let s = sorted@.subrange(0, p as int);
        if p > 0 {
            assert(s.last() == sorted@[p - 1]);
        }
        assert(insert_call(cv, s, u) == s.push(u));
    }
    sorted.insert(p, u);
    assert(sorted@ == old(sorted)@.subrange(0, p as int).push(u) + old(sorted)@.subrange(
        p as int,
        old(sorted)@.len() as int,
    ));
}

fn call_text_exec(cs: &[char], ps: &Vec<String>, call: &Node, body: &String, multi: bool) -> (s: String)
    requires
        call.items@.len() == ps@.len() + 1,
    ensures
        s@ == call_text(cs@, ps@.map_values(|p: String| p@), *call, body@, multi),
{
    proof {
        reveal_strlit("(progn ");
        reveal_strlit(")");
        reveal_strlit("(let (");
        reveal_strlit(") ");
        reveal_strlit("(");
        reveal_strlit(" ");
    }
    let ghost pv = ps@.map_values(|p: String| p@);
    if ps.len() == 0 {
        if multi {
            let mut s = String::from_str("(progn ");
            s.append(body.as_str());
            s.append(")");
            return s;
        } else {
            return body.clone();
        }
    }
    let mut bs = String::new();
    let mut k: usize = 0;
    while k < ps.len()
        invariant
            pv == ps@.map_values(|p: String| p@),
            call.items@.len() == ps@.len() + 1,
            k <= ps@.len(),
            bs@ == bindings(cs@, pv, *call, k as int),
        decreases ps.len() - k,
    {
        let ghost b0 = bs@;
        if k > 0 {
            bs.append(" ");
        }
        bs.append("(");
        bs.append(ps[k].as_str());
        bs.append(" ");
        let a = node_string(cs, &call.items[k + 1]);
        bs.append(a.as_str());
        bs.append(")");
        proof {
            let bd = binding(cs@, pv[k as int], call.items@[k + 1]);
            if k == 0 {
                assert(bs@ =~= bd);
            } else {
                assert(bs@ =~= b0 + " "@ + bd);
            }
        }
        k = k + 1;
    }
    let mut s = String::from_str("(let (");
    s.append(bs.as_str());
    s.append(") ");
    s.append(body.as_str());
    s.append(")");
    s
}

fn scan_exec(nc: &[char], forms: &Vec<Node>) -> (r: (usize, Option<(usize, Vec<String>, usize)>, Option<String>))
    ensures
        ({
            let (c, m, rf) = scan_defs(nc@, forms@, forms@.len() as int);
            &&& c == r.0
            &&& match (m, &r.1) {
                (None, None) => true,
                (Some((fi, ps, b)), Some((fi2, v, b2))) => fi == *fi2 && b == *b2 && v@.map_values(
                    |p: String| p@,
                ) == ps,
                _ => false,
            }
            &&& match (rf, &r.2) {
                (None, None) => true,
                (Some(x), Some(y)) => x == y@,
                _ => false,
            }
        }),
        r.1 matches Some((fi, _, b)) ==> fi < forms@.len() && b < forms@[fi as int].items@.len(),
{
    let mut count: usize = 0;
    let mut matched: Option<(usize, Vec<String>, usize)> = None;
    let mut refuse: Option<String> = None;
    let mut k: usize = 0;
    while k < forms.len()
        invariant
            k <= forms@.len(),
            count <= k,
            ({
                let (c, m, rf) = scan_defs(nc@, forms@, k as int);
                &&& c == count
                &&& match (m, &matched) {
                    (None, None) => true,
                    (Some((fi, ps, b)), Some((fi2, v, b2))) => fi == *fi2 && b == *b2 && v@.map_values(
                        |p: String| p@,
                    ) == ps,
                    _ => false,
                }
                &&& match (rf, &refuse) {
                    (None, None) => true,
                    (Some(x), Some(y)) => x == y@,
                    _ => false,
                }
            }),
            matched matches Some((fi, _, b)) ==> fi < forms@.len() && b < forms@[fi as int].items@.len(),
        decreases forms.len() - k,
    {
        match classify_exec(nc, &forms[k]) {
            None => {},
            Some(Err(e)) => {
                count = count + 1;
                if refuse.is_none() {
                    refuse = Some(e);
                }
            },
            Some(Ok((ps, b))) => {
                count = count + 1;
                proof {
                    lemma_classify_body(nc@, forms@[k as int]);
                }
                matched = Some((k, ps, b));
            },
        }
        k = k + 1;
    }
    (count, matched, refuse)
}

proof fn lemma_classify_body(name: Seq<char>, form: Node)
    ensures
        classify_def(name, form) matches Some(Ok((_, b))) ==> 0 <= b < form.items@.len(),
{
}

fn refs_from(nc: &[char], items: &Vec<Node>, b: usize) -> (r: bool)
    requires
        b <= items@.len(),
    ensures
        r == refs_range(nc@, items@.subrange(b as int, items@.len() as int), items@.len() - b),
{
    let len = items.len();
    let ghost sub = items@.subrange(b as int, len as int);
    let mut q = b;
    while q < len
        invariant
            b <= q <= len,
            len == items@.len(),
            sub == items@.subrange(b as int, len as int),
            !refs_range(nc@, sub, q - b),
        decreases len - q,
    {
        if refs_exec(nc, &items[q]) {
            proof {
                assert(sub[q - b] == items@[q as int]);
                lemma_refs_grow(nc@, sub, q - b + 1, len - b);
            }
            return true;
        }
        proof {
            assert(sub[q - b] == items@[q as int]);
        }
        q = q + 1;
    }
    false
}

pub(crate) proof fn lemma_extends_empty<'n>(f: Seq<&'n Node>, x: Seq<Node>)
    requires
        extends(Seq::empty(), f, x),
    ensures
        derefs(f) == x,
{
    let o: Seq<&'n Node> = Seq::empty();
    assert forall|i: int| 0 <= i < x.len() implies derefs(f)[i] == x[i] by {
        assert(*f[o.len() + i] == x[i]);
    }
    assert(derefs(f) =~= x);
}

proof fn lemma_calls_range_heads(src: Seq<char>, code: Seq<(u32, u32)>, name: Seq<char>, def: Node, data: Seq<Node>, k: int)
    ensures
        forall|i: int|
            0 <= i < calls_range(src, code, name, def, data, k).len() ==> (#[trigger] calls_range(
                src,
                code,
                name,
                def,
                data,
                k,
            )[i]).items@.len() >= 1,
    decreases data, k,
{
    if 0 < k <= data.len() {
        lemma_calls_range_heads(src, code, name, def, data, k - 1);
        lemma_calls_in_heads(src, code, name, def, data[k - 1]);
        let x = calls_range(src, code, name, def, data, k - 1);
        let y = calls_in(src, code, name, def, data[k - 1]);
        assert forall|i: int| 0 <= i < (x + y).len() implies (#[trigger] (x + y)[i]).items@.len() >= 1 by {
            if i < x.len() {
                assert((x + y)[i] == x[i]);
            } else {
                assert((x + y)[i] == y[i - x.len()]);
            }
        }
    }
}

proof fn lemma_calls_opt_heads(src: Seq<char>, code: Seq<(u32, u32)>, name: Seq<char>, def: Node, o: Option<Box<Node>>)
    ensures
        forall|i: int|
            0 <= i < calls_opt(src, code, name, def, o).len() ==> (#[trigger] calls_opt(src, code, name, def, o)[i]).items@.len() >= 1,
    decreases o, 1int,
{
    match o {
        Some(x) => lemma_calls_in_heads(src, code, name, def, *x),
        None => {},
    }
}

proof fn lemma_calls_in_heads(src: Seq<char>, code: Seq<(u32, u32)>, name: Seq<char>, def: Node, n: Node)
    ensures
        forall|i: int|
            0 <= i < calls_in(src, code, name, def, n).len() ==> (#[trigger] calls_in(src, code, name, def, n)[i]).items@.len() >= 1,
    decreases n, 0int,
{
    let x: Seq<Node> = if is_call(src, code, name, def, n) {
        seq![n]
    } else {
        Seq::empty()
    };
    let y: Seq<Node> = match n.shape {
        Shape::List => {
            lemma_calls_range_heads(src, code, name, def, n.items@, n.items@.len() as int);
            lemma_calls_opt_heads(src, code, name, def, n.tail);
            let p = calls_range(src, code, name, def, n.items@, n.items@.len() as int);
            let q = calls_opt(src, code, name, def, n.tail);
            assert forall|i: int| 0 <= i < (p + q).len() implies (#[trigger] (p + q)[i]).items@.len() >= 1 by {
                if i < p.len() {
                    assert((p + q)[i] == p[i]);
                } else {
                    assert((p + q)[i] == q[i - p.len()]);
                }
            }
            p + q
        },
        Shape::Prefixed => {
            lemma_calls_opt_heads(src, code, name, def, n.arg);
            lemma_calls_opt_heads(src, code, name, def, n.inner);
            let p = calls_opt(src, code, name, def, n.arg);
            let q = calls_opt(src, code, name, def, n.inner);
            assert forall|i: int| 0 <= i < (p + q).len() implies (#[trigger] (p + q)[i]).items@.len() >= 1 by {
                if i < p.len() {
                    assert((p + q)[i] == p[i]);
                } else {
                    assert((p + q)[i] == q[i - p.len()]);
                }
            }
            p + q
        },
        Shape::HashLiteral | Shape::Label => {
            lemma_calls_opt_heads(src, code, name, def, n.inner);
            calls_opt(src, code, name, def, n.inner)
        },
        _ => Seq::empty(),
    };
    assert(calls_in(src, code, name, def, n) == x + y);
    assert forall|i: int| 0 <= i < (x + y).len() implies (#[trigger] (x + y)[i]).items@.len() >= 1 by {
        if i < x.len() {
            assert((x + y)[i] == x[i]);
        } else {
            assert((x + y)[i] == y[i - x.len()]);
        }
    }
}

pub(crate) fn sort_calls_exec(calls: &Vec<&Node>) -> (order: Vec<usize>)
    ensures
        order@ == sort_calls(derefs(calls@), all_idx(calls@.len() as int)),
        order@.len() == calls@.len(),
        forall|q: int| 0 <= q < order@.len() ==> order@[q] < calls@.len(),
{
    let ghost cv = derefs(calls@);
    let n = calls.len();
    let mut order: Vec<usize> = Vec::new();
    let mut k: usize = 0;
    while k < n
        invariant
            n == calls@.len(),
            cv == derefs(calls@),
            k <= n,
            order@ == sort_calls(cv, all_idx(k as int)),
            forall|q: int| 0 <= q < order@.len() ==> order@[q] < n,
        decreases n - k,
    {
        insert_call_exec(calls, &mut order, k);
        proof {
            assert(all_idx(k + 1).drop_last() =~= all_idx(k as int));
        }
        k = k + 1;
    }
    proof {
        lemma_sort_calls_len(cv, all_idx(n as int));
    }
    order
}

pub(crate) fn keep_outer_exec(calls: &Vec<&Node>, order: &Vec<usize>) -> (kept: Vec<usize>)
    requires
        forall|q: int| 0 <= q < order@.len() ==> order@[q] < calls@.len(),
    ensures
        kept@ == keep_outer(derefs(calls@), order@, order@.len() as int).0,
        forall|q: int| 0 <= q < kept@.len() ==> kept@[q] < calls@.len(),
{
    let ghost cv = derefs(calls@);
    let mut kept: Vec<usize> = Vec::new();
    let mut cov: usize = 0;
    let mut k: usize = 0;
    while k < order.len()
        invariant
            cv == derefs(calls@),
            forall|q: int| 0 <= q < order@.len() ==> order@[q] < calls@.len(),
            k <= order@.len(),
            keep_outer(cv, order@, k as int) == (kept@, cov as int),
            forall|q: int| 0 <= q < kept@.len() ==> kept@[q] < calls@.len(),
        decreases order.len() - k,
    {
        let c = calls[order[k]];
        if c.start >= cov {
            kept.push(order[k]);
            cov = c.end;
        }
        k = k + 1;
    }
    kept
}

fn arity_exec(calls: &Vec<&Node>, kept: &Vec<usize>, np: usize) -> (r: Option<usize>)
    requires
        forall|q: int| 0 <= q < kept@.len() ==> kept@[q] < calls@.len(),
        forall|q: int| 0 <= q < calls@.len() ==> (#[trigger] calls@[q]).items@.len() >= 1,
    ensures
        match arity_fault(derefs(calls@), kept@, np as int, kept@.len() as int) {
            Some(i) => r == Some(i as usize) && 0 <= i < kept@.len(),
            None => r is None,
        },
{
    let ghost cv = derefs(calls@);
    let mut k: usize = 0;
    while k < kept.len()
        invariant
            cv == derefs(calls@),
            forall|q: int| 0 <= q < kept@.len() ==> kept@[q] < calls@.len(),
            forall|q: int| 0 <= q < calls@.len() ==> (#[trigger] calls@[q]).items@.len() >= 1,
            k <= kept@.len(),
            arity_fault(cv, kept@, np as int, k as int) is None,
        decreases kept.len() - k,
    {
        let c = calls[kept[k]];
        assert(c.items@.len() >= 1);
        if c.items.len() - 1 != np {
            proof {
                lemma_arity_err(cv, kept@, np as int, k + 1, kept@.len() as int);
            }
            return Some(k);
        }
        k = k + 1;
    }
    None
}

fn inline_edits_exec(
    cs: &[char],
    bt: &Vec<usize>,
    calls: &Vec<&Node>,
    kept: &Vec<usize>,
    ps: &Vec<String>,
    body: &String,
    multi: bool,
) -> (r: Vec<Edit>)
    requires
        byte_table_of(cs@, bt@),
        forall|q: int| 0 <= q < kept@.len() ==> kept@[q] < calls@.len(),
        arity_fault(derefs(calls@), kept@, ps@.len() as int, kept@.len() as int) is None,
    ensures
        edits_are(
            r@,
            inline_edits(cs@, ps@.map_values(|p: String| p@), derefs(calls@), kept@, body@, multi),
        ),
{
    let ghost cv = derefs(calls@);
    let ghost pv = ps@.map_values(|p: String| p@);
    let ghost want = inline_edits(cs@, pv, cv, kept@, body@, multi);
    let mut edits: Vec<Edit> = Vec::new();
    let mut k: usize = 0;
    while k < kept.len()
        invariant
            cv == derefs(calls@),
            pv == ps@.map_values(|p: String| p@),
            want == inline_edits(cs@, pv, cv, kept@, body@, multi),
            byte_table_of(cs@, bt@),
            forall|q: int| 0 <= q < kept@.len() ==> kept@[q] < calls@.len(),
            arity_fault(cv, kept@, ps@.len() as int, kept@.len() as int) is None,
            k <= kept@.len(),
            edits@.len() == k,
            forall|q: int| 0 <= q < k ==> crate::structural::edit_is(#[trigger] edits@[q], want[q]),
        decreases kept.len() - k,
    {
        let c = calls[kept[k]];
        proof {
            lemma_arity_ok(cv, kept@, ps@.len() as int, k as int, kept@.len() as int);
        }
        let t = call_text_exec(cs, ps, c, body, multi);
        let e = edit_at(cs, bt, c.start, c.end, t);
        let ghost e0 = edits@;
        edits.push(e);
        proof {
            assert forall|q: int| 0 <= q < k + 1 implies crate::structural::edit_is(#[trigger] edits@[q], want[q]) by {
                if q < k {
                    assert(edits@[q] == e0[q]);
                }
            }
        }
        k = k + 1;
    }
    edits
}

/// Plan inlining every call of the function `name` in `source` (read as
/// `dialect`) with its body, substituting arguments. `name` must have a
/// single, function-like definition (`defun`, `defsubst`, `cl-defun`,
/// `cl-defsubst`, or `(define (name …) …)`) with a required-only lambda list
/// and a body that does not mention it. Each call `(name a…)` in code
/// position outside the definition becomes the body (in a `progn` when it
/// has several forms) for a function without parameters, else
/// `(let ((p a) …) body)`. Only the outermost of nested calls is expanded.
/// Macros, variables, complex lambda lists, recursion and arity mismatches
/// are refused with a reason; the definition stays in place.
pub fn plan_inline(source: &str, name: &str, dialect: Dialect) -> (r: Result<InlinePlan, InlineError>)
    ensures
        exists|forms: Seq<Node>|
            reads_as(source@, dialect_name_spec(dialect), false, forms) && #[trigger] inline_outcome(
                source@,
                code_spans(source@, crate::reader::dialect_name_spec(dialect)),
                forms,
                name@,
                r,
            ),
{
    proof {
        reveal_strlit("not an inlinable function");
        reveal_strlit("` is recursive");
    }
    let forms = read(source, dialect, false);
    let cs = chars_of(source);
    let bt = byte_table(cs.as_slice());
    let nl = crate::text::line_numbers(cs.as_slice());
    let nc = chars_of(name);
    let ghost fs = forms@;
    let ghost nm = name@;
    let ghost cd = code_spans(source@, crate::reader::dialect_name_spec(dialect));
    let (count, matched, refuse) = scan_exec(nc.as_slice(), &forms);
    if count == 0 {
        let r = Err(InlineError::NotFound(String::from_str(name)));
        assert(inline_outcome(source@, cd, fs, nm, r));
        return r;
    }
    if count > 1 {
        let r = Err(InlineError::Ambiguous(String::from_str(name)));
        assert(inline_outcome(source@, cd, fs, nm, r));
        return r;
    }
    let (fi, ps, b) = match matched {
        Some(m) => m,
        None => {
            let msg = match refuse {
                Some(x) => x,
                None => String::from_str("not an inlinable function"),
            };
            let r = Err(InlineError::NotInlinable(msg));
            assert(inline_outcome(source@, cd, fs, nm, r));
            return r;
        },
    };
    let ghost pv = ps@.map_values(|p: String| p@);
    let def = &forms[fi];
    let items = &def.items;
    let len = items.len();
    if refs_from(nc.as_slice(), items, b) {
        let r = Err(InlineError::NotInlinable(backticked(nc.as_slice(), "` is recursive")));
        assert(inline_outcome(source@, cd, fs, nm, r));
        return r;
    }
    let code = lx_code_spans(source, crate::reader::dialect_name(dialect));
    let scan = CallScan { cs: cs.as_slice(), bt: &bt, code: &code, name: nc.as_slice(), def };
    let mut calls: Vec<&Node> = Vec::new();
    calls_range_exec(&scan, forms.as_slice(), &mut calls);
    let ghost cv = calls_range(source@, cd, nm, *def, fs, fs.len() as int);
    proof {
        lemma_extends_empty(calls@, cv);
        lemma_calls_range_heads(source@, cd, nm, *def, fs, fs.len() as int);
        assert forall|q: int| 0 <= q < calls@.len() implies (#[trigger] calls@[q]).items@.len() >= 1 by {
            assert(*calls@[q] == cv[q]);
        }
    }
    if calls.len() == 0 {
        let r = Err(InlineError::NoCallSites(String::from_str(name)));
        assert(inline_outcome(source@, cd, fs, nm, r));
        return r;
    }
    let order = sort_calls_exec(&calls);
    let kept = keep_outer_exec(&calls, &order);
    match arity_exec(&calls, &kept, ps.len()) {
        Some(k) => {
            let c = calls[kept[k]];
            let s0 = if c.start <= cs.len() {
                c.start
            } else {
                cs.len()
            };
            let line = nl[s0].saturating_add(1);
            assert(c.items@.len() >= 1);
            let r = Err(InlineError::ArityMismatch { expected: ps.len(), found: c.items.len() - 1, line });
            assert(inline_outcome(source@, cd, fs, nm, r));
            return r;
        },
        None => {},
    }
    let body = seg_string(cs.as_slice(), items[b].start, items[len - 1].end);
    let multi = len - b > 1;
    let edits = inline_edits_exec(cs.as_slice(), &bt, &calls, &kept, &ps, &body, multi);
    let inlined = edits.len();
    let spans = landed_spans(&edits);
    let ghost es = edits@;
    let r = match splice(source, edits) {
        Ok(content) => Ok(InlinePlan { content, inlined, spans }),
        Err(x) => Err(InlineError::Splice(x)),
    };
    proof {
        let (c0, m0, r0) = scan_defs(nm, fs, fs.len() as int);
        assert(m0 == Some((fi as int, pv, b as int)));
        assert(fs[fi as int] == *def);
        assert(kept@ == keep_outer(cv, sort_calls(cv, all_idx(cv.len() as int)), cv.len() as int).0);
        assert(edits_are(es, inline_want(source@, cd, fs, nm, fi as int, pv, b as int)));
        if r is Ok {
            assert(ranges_are(r->Ok_0.spans@, all_landed(es)));
        }
        assert(inline_found(source@, cd, fs, nm, fi as int, pv, b as int, r));
    }
    assert(inline_outcome(source@, cd, fs, nm, r));
    r
}

proof fn lemma_sort_calls_len(cv: Seq<Node>, s: Seq<usize>)
    ensures
        sort_calls(cv, s).len() == s.len(),
    decreases s.len(),
{
    if s.len() > 0 {
        lemma_sort_calls_len(cv, s.drop_last());
        lemma_insert_call_len(cv, sort_calls(cv, s.drop_last()), s.last());
    }
}

proof fn lemma_insert_call_len(cv: Seq<Node>, s: Seq<usize>, u: usize)
    ensures
        insert_call(cv, s, u).len() == s.len() + 1,
    decreases s.len(),
{
    if s.len() > 0 && !call_le(cv, s.last(), u) {
        lemma_insert_call_len(cv, s.drop_last(), u);
    }
}

proof fn lemma_arity_err(cv: Seq<Node>, kv: Seq<usize>, np: int, k: int, n: int)
    requires
        0 <= k <= n <= kv.len(),
        arity_fault(cv, kv, np, k) is Some,
    ensures
        arity_fault(cv, kv, np, n) == arity_fault(cv, kv, np, k),
    decreases n - k,
{
    if n > k {
        lemma_arity_err(cv, kv, np, k, n - 1);
    }
}

proof fn lemma_arity_ok(cv: Seq<Node>, kv: Seq<usize>, np: int, k: int, n: int)
    requires
        0 <= k < n <= kv.len(),
        arity_fault(cv, kv, np, n) is None,
    ensures
        arity_fault(cv, kv, np, k + 1) is None,
        cv[kv[k] as int].items@.len() - 1 == np,
    decreases n - k,
{
    if n > k + 1 {
        lemma_arity_ok(cv, kv, np, k, n - 1);
    }
}


/// The content a planned inline writes (see [`refactored`]).
pub fn finish_inline(plan: &InlinePlan, dialect: Dialect, config: &FormatConfig) -> (r: String)
    ensures
        refactored(plan.content@, plan.spans@, dialect, *config, r@),
{
    reindent_spans(&plan.content, &plan.spans, dialect, config)
}


proof fn lemma_bindings_closed(src: Seq<char>, ps: Seq<Seq<char>>, call: Node, k: int)
    requires
        1 <= k <= ps.len(),
    ensures
        bindings(src, ps, call, k) == crate::units::spaced(
            Seq::new(k as nat, |i: int| "("@ + ps[i] + " "@ + node_text(src, call.items@[i + 1]) + ")"@),
        ),
    decreases k,
{
    let f = |i: int| "("@ + ps[i] + " "@ + node_text(src, call.items@[i + 1]) + ")"@;
    if k > 1 {
        lemma_bindings_closed(src, ps, call, k - 1);
        assert(Seq::new(k as nat, f).drop_last() =~= Seq::new((k - 1) as nat, f));
    }
}

/// Inlining a call to a function with parameters `p_1 … p_n` replaces the
/// call `(f a_1 … a_n)` with `(let ((p_1 a_1) … (p_n a_n)) body)`: the i-th
/// binding binds the i-th parameter to the source text of the call's i-th
/// argument, for every i, in order.
pub proof fn law_inline_binds_each_parameter_to_its_argument(
    src: Seq<char>,
    ps: Seq<Seq<char>>,
    call: Node,
    body: Seq<char>,
    multi: bool,
)
    requires
        ps.len() > 0,
    ensures
        call_text(src, ps, call, body, multi) == "(let ("@ + crate::units::spaced(
            Seq::new(ps.len(), |i: int| "("@ + ps[i] + " "@ + node_text(src, call.items@[i + 1]) + ")"@),
        ) + ") "@ + body + ")"@,
{
    lemma_bindings_closed(src, ps, call, ps.len() as int);
}


/// Inlining a call to a function without parameters replaces the call with
/// the function's body: the single body form itself, or the forms in a
/// `progn` when there are several.
pub proof fn law_inline_without_parameters_is_the_body(src: Seq<char>, call: Node, body: Seq<char>, multi: bool)
    ensures
        call_text(src, Seq::empty(), call, body, multi) == if multi {
            "(progn "@ + body + ")"@
        } else {
            body
        },
{
}

} // verus!
