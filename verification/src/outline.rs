//! A heuristic Outline of a file's top-level definitions: each definition's
//! start line and anchor hash, its defining head (e.g. `defun`, `define`)
//! and the name it introduces.

use vstd::prelude::*;

use crate::reader::{dialect_name_spec, read, reads_as, Dialect, Node, Shape};
use crate::text::{chars_of, has_prefix_at, line_numbers, nl_count, string_of_range};
use crate::format::node_text;
use crate::hash::anchor_hash_spec;
use vstd::utf8::encode_utf8;

verus! {

/// One entry in a file's outline: a top-level definition's start line and
/// anchor hash, its defining head, and the name it introduces.
#[derive(Debug, Clone, PartialEq, Eq)]
pub struct OutlineEntry {
    /// 1-based start line of the definition.
    pub line: u32,
    /// The anchor hash of the definition's text (with its line, the anchor
    /// an edit names it by).
    pub hash: String,
    /// The defining head symbol, e.g. `define` or `defun`.
    pub kind: String,
    /// The defined name, when one can be extracted.
    pub name: Option<String>,
}

/// What an [`OutlineEntry`] says.
pub struct OutlineEntryV {
    pub line: u32,
    pub hash: Seq<char>,
    pub kind: Seq<char>,
    pub name: Option<Seq<char>>,
}

impl View for OutlineEntry {
    type V = OutlineEntryV;

    open spec fn view(&self) -> OutlineEntryV {
        OutlineEntryV {
            line: self.line,
            hash: self.hash@,
            kind: self.kind@,
            name: match self.name {
                Some(n) => Some(n@),
                None => None,
            },
        }
    }
}

/// The text of a symbol datum.
pub open spec fn symbol_text(src: Seq<char>, n: Node) -> Option<Seq<char>> {
    if n.shape == Shape::Symbol && n.start <= n.end <= src.len() {
        Some(src.subrange(n.start as int, n.end as int))
    } else {
        None
    }
}

/// The name a definition introduces: `(defvar x …)` → `x`;
/// `(define (square n) …)` → `square`.
pub open spec fn defined_name(src: Seq<char>, n: Node) -> Option<Seq<char>> {
    if n.shape == Shape::Symbol {
        symbol_text(src, n)
    } else if n.shape == Shape::List && n.items@.len() > 0 {
        symbol_text(src, n.items@[0])
    } else {
        None
    }
}

/// The outline entry of a top-level datum: a list whose head is a symbol
/// starting with `def`.
pub open spec fn entry_of(src: Seq<char>, d: Node) -> Option<OutlineEntryV> {
    if d.shape != Shape::List || d.items@.len() == 0 {
        None
    } else {
        match symbol_text(src, d.items@[0]) {
            Some(head) => if has_prefix_at(head, 0, "def"@) {
                Some(
                    OutlineEntryV {
                        line: if nl_count(src, d.start as int) < u32::MAX {
                            (nl_count(src, d.start as int) + 1) as u32
                        } else {
                            u32::MAX
                        },
                        hash: anchor_hash_spec(encode_utf8(node_text(src, d))),
                        kind: head,
                        name: if d.items@.len() > 1 {
                            defined_name(src, d.items@[1])
                        } else {
                            None
                        },
                    },
                )
            } else {
                None
            },
            None => None,
        }
    }
}

/// The outline of `src` read as `forms`.
pub open spec fn outline_spec(src: Seq<char>, forms: Seq<Node>) -> Seq<OutlineEntryV> {
    forms.filter_map(|d: Node| entry_of(src, d))
}

fn symbol_text_exec(cs: &[char], n: &Node) -> (r: Option<String>)
    ensures
        match r {
            Some(s) => symbol_text(cs@, *n) == Some(s@),
            None => symbol_text(cs@, *n) is None,
        },
{
    let sym = match n.shape {
        Shape::Symbol => true,
        _ => false,
    };
    if sym && n.start <= n.end && n.end <= cs.len() {
        Some(string_of_range(cs, n.start, n.end))
    } else {
        None
    }
}

fn entry_of_exec(cs: &[char], nl: &Vec<usize>, d: &Node) -> (r: Option<OutlineEntry>)
    requires
        nl@.len() == cs@.len() + 1,
        forall|k: int| 0 <= k <= cs@.len() ==> nl@[k] == nl_count(cs@, k),
    ensures
        match r {
            Some(e) => entry_of(cs@, *d) == Some(e@),
            None => entry_of(cs@, *d) is None,
        },
{
    let list = match d.shape {
        Shape::List => true,
        _ => false,
    };
    if !list || d.items.len() == 0 {
        return None;
    }
    let head = match symbol_text_exec(cs, &d.items[0]) {
        Some(h) => h,
        None => return None,
    };
    let hc = chars_of(head.as_str());
    let def = chars_of("def");
    if !crate::text::starts_with_at(hc.as_slice(), 0, def.as_slice()) {
        return None;
    }
    let start = if d.start <= cs.len() {
        d.start
    } else {
        cs.len()
    };
    let line: u32 = if nl[start] < 4294967295 {
        (nl[start] + 1) as u32
    } else {
        4294967295
    };
    let name = if d.items.len() > 1 {
        let n1 = &d.items[1];
        match n1.shape {
            Shape::Symbol => symbol_text_exec(cs, n1),
            Shape::List => {
                if n1.items.len() > 0 {
                    symbol_text_exec(cs, &n1.items[0])
                } else {
                    None
                }
            },
            _ => None,
        }
    } else {
        None
    };
    let text = crate::format::node_string(cs, d);
    let hash = crate::hash::anchor_hash(text.as_str().as_bytes());
    Some(OutlineEntry { line, hash, kind: head, name })
}

/// The outline of `forms`, the data of `cs`.
pub fn outline_forms(cs: &[char], forms: &Vec<Node>) -> (r: Vec<OutlineEntry>)
    ensures
        r@.map_values(|e: OutlineEntry| e@) == outline_spec(cs@, forms@),
{
    let nl = line_numbers(cs);
    let mut r: Vec<OutlineEntry> = Vec::new();
    let mut i: usize = 0;
    while i < forms.len()
        invariant
            nl@.len() == cs@.len() + 1,
            forall|k: int| 0 <= k <= cs@.len() ==> nl@[k] == nl_count(cs@, k),
            i <= forms@.len(),
            r@.map_values(|e: OutlineEntry| e@) == outline_spec(cs@, forms@.take(i as int)),
        decreases forms.len() - i,
    {
        let ghost before = r@;
        match entry_of_exec(cs, &nl, &forms[i]) {
            Some(e) => r.push(e),
            None => {},
        }
        proof {
            let p = forms@.take(i + 1);
            assert(p.drop_last() == forms@.take(i as int));
            assert(p.last() == forms@[i as int]);
            assert(r@.map_values(|e: OutlineEntry| e@) =~= outline_spec(cs@, p));
        }
        i = i + 1;
    }
    assert(forms@.take(i as int) == forms@);
    r
}

/// Read `source` as `dialect` and return a heuristic outline of its
/// top-level definitions: the outline of the forms the reader reads.
pub fn outline(source: &str, dialect: Dialect) -> (r: Vec<OutlineEntry>)
    ensures
        exists|forms: Seq<Node>|
            reads_as(source@, dialect_name_spec(dialect), false, forms)
                && #[trigger] outline_spec(source@, forms) == r@.map_values(|e: OutlineEntry| e@),
{
    let cs = chars_of(source);
    let forms = read(source, dialect, false);
    let r = outline_forms(cs.as_slice(), &forms);
    assert(outline_spec(source@, forms@) == r@.map_values(|e: OutlineEntry| e@));
    r
}


/// Whether `after` still has a definition of `e`'s kind and name.
pub open spec fn still_defined(after: Seq<OutlineEntryV>, e: OutlineEntryV) -> bool {
    exists|j: int| 0 <= j < after.len() && #[trigger] after[j].kind == e.kind && after[j].name == e.name
}

/// The warning for a named definition no longer recognized.
pub open spec fn warning_text(kind: Seq<char>, name: Seq<char>) -> Seq<char> {
    "definition `"@ + name + "` ("@ + kind + ") is no longer recognized"@
}

/// The warnings for the named definitions among `before[..k]` that
/// `after` no longer has, in order.
pub open spec fn disappeared_spec(before: Seq<OutlineEntryV>, after: Seq<OutlineEntryV>, k: int) -> Seq<Seq<char>>
    decreases k,
{
    if k <= 0 || k > before.len() {
        Seq::empty()
    } else {
        disappeared_spec(before, after, k - 1) + match before[k - 1].name {
            Some(n) => if still_defined(after, before[k - 1]) {
                Seq::empty()
            } else {
                seq![warning_text(before[k - 1].kind, n)]
            },
            None => Seq::empty(),
        }
    }
}

fn same_text(a: &String, b: &String) -> (r: bool)
    ensures
        r == (a@ == b@),
{
    let x = chars_of(a.as_str());
    let y = chars_of(b.as_str());
    crate::text::seq_eq(x.as_slice(), y.as_slice())
}

/// The named definitions of `before` (an edit's old content) that `after`
/// (its new content) no longer defines under the same head: one warning
/// each, in the order of `before`. The edit still stands; these only
/// tell the editor what it may have broken.
pub fn disappeared_definitions(before: &str, after: &str, dialect: Dialect) -> (r: Vec<String>)
    ensures
        exists|fb: Seq<Node>, fa: Seq<Node>|
            reads_as(before@, dialect_name_spec(dialect), false, fb)
                && reads_as(after@, dialect_name_spec(dialect), false, fa)
                && r@.map_values(|w: String| w@) == #[trigger] disappeared_spec(
                outline_spec(before@, fb),
                #[trigger] outline_spec(after@, fa),
                outline_spec(before@, fb).len() as int,
            ),
{
    let old = outline(before, dialect);
    let new = outline(after, dialect);
    let ghost ov = old@.map_values(|e: OutlineEntry| e@);
    let ghost nv = new@.map_values(|e: OutlineEntry| e@);
    let ghost fb = choose|forms: Seq<Node>|
        reads_as(before@, dialect_name_spec(dialect), false, forms)
            && #[trigger] outline_spec(before@, forms) == ov;
    let ghost fa = choose|forms: Seq<Node>|
        reads_as(after@, dialect_name_spec(dialect), false, forms)
            && #[trigger] outline_spec(after@, forms) == nv;
    let mut r: Vec<String> = Vec::new();
    let mut i: usize = 0;
    proof {
        reveal_strlit("definition `");
        reveal_strlit("` (");
        reveal_strlit(") is no longer recognized");
    }
    while i < old.len()
        invariant
            ov == old@.map_values(|e: OutlineEntry| e@),
            nv == new@.map_values(|e: OutlineEntry| e@),
            i <= old@.len(),
            r@.map_values(|w: String| w@) == disappeared_spec(ov, nv, i as int),
        decreases old.len() - i,
    {
        let e = &old[i];
        assert(ov[i as int] == e@);
        match &e.name {
            Some(n) => {
                let mut found = false;
                let mut j: usize = 0;
                while j < new.len()
                    invariant
                        nv == new@.map_values(|e: OutlineEntry| e@),
                        e@.name == Some(n@),
                        j <= new@.len(),
                        found == exists|q: int|
                            0 <= q < j && #[trigger] nv[q].kind == e@.kind && nv[q].name == e@.name,
                    decreases new.len() - j,
                {
                    assert(nv[j as int] == new@[j as int]@);
                    let same = same_text(&new[j].kind, &e.kind) && match &new[j].name {
                        Some(m) => same_text(m, n),
                        None => false,
                    };
                    assert(same == (nv[j as int].kind == e@.kind && nv[j as int].name == e@.name));
                    if same {
                        found = true;
                    }
                    j = j + 1;
                }
                let ghost before_r = r@;
                if !found {
                    let mut w = String::from_str("definition `");
                    w.append(n.as_str());
                    w.append("` (");
                    w.append(e.kind.as_str());
                    w.append(") is no longer recognized");
                    r.push(w);
                }
                proof {
                    assert(still_defined(nv, ov[i as int]) == found);
                    assert(r@.map_values(|w: String| w@) =~= disappeared_spec(ov, nv, i + 1));
                }
            },
            None => {
                assert(r@.map_values(|w: String| w@) =~= disappeared_spec(ov, nv, i + 1));
            },
        }
        i = i + 1;
    }
    assert(outline_spec(before@, fb) == ov && outline_spec(after@, fa) == nv);
    r
}


/// The dialect a file extension (compared case-insensitively) suggests:
/// the zero-config guess. Unknown extensions fall back to a permissive
/// Scheme superset.
pub open spec fn dialect_for_extension_spec(ext: Seq<char>) -> Dialect {
    let e = crate::text::ascii_lower(ext);
    if e == "scm"@ || e == "ss"@ || e == "sls"@ || e == "sps"@ || e == "sld"@ {
        Dialect::Scheme
    } else if e == "el"@ {
        Dialect::EmacsLisp
    } else if e == "clj"@ || e == "cljs"@ || e == "cljc"@ {
        Dialect::Clojure
    } else if e == "edn"@ {
        Dialect::Edn
    } else if e == "lisp"@ || e == "lsp"@ || e == "cl"@ || e == "asd"@ {
        Dialect::CommonLisp
    } else if e == "rkt"@ {
        Dialect::Racket
    } else if e == "fnl"@ {
        Dialect::Fennel
    } else if e == "janet"@ {
        Dialect::Janet
    } else if e == "hy"@ {
        Dialect::Hy
    } else if e == "lfe"@ {
        Dialect::Lfe
    } else if e == "phel"@ {
        Dialect::Phel
    } else {
        Dialect::SchemeSuperset
    }
}

/// The zero-config dialect guess from a file extension (without its dot).
pub fn dialect_for_extension(ext: &str) -> (d: Dialect)
    ensures
        d == dialect_for_extension_spec(ext@),
{
    let ec = chars_of(ext);
    let low = crate::text::ascii_lower_range(ec.as_slice(), 0, ec.len());
    assert(ec@.subrange(0, ec@.len() as int) == ec@);
    let e = low.as_slice();
    let is = |lit: &str| -> (b: bool)
        ensures
            b == (e@ == lit@),
        { crate::text::eq_lit(e, lit) };
    if is("scm") || is("ss") || is("sls") || is("sps") || is("sld") {
        Dialect::Scheme
    } else if is("el") {
        Dialect::EmacsLisp
    } else if is("clj") || is("cljs") || is("cljc") {
        Dialect::Clojure
    } else if is("edn") {
        Dialect::Edn
    } else if is("lisp") || is("lsp") || is("cl") || is("asd") {
        Dialect::CommonLisp
    } else if is("rkt") {
        Dialect::Racket
    } else if is("fnl") {
        Dialect::Fennel
    } else if is("janet") {
        Dialect::Janet
    } else if is("hy") {
        Dialect::Hy
    } else if is("lfe") {
        Dialect::Lfe
    } else if is("phel") {
        Dialect::Phel
    } else {
        Dialect::SchemeSuperset
    }
}

/// Whether the extension `ext` names a Lisp file the zero-config guess
/// recognizes (not the fallback for unknown extensions).
pub fn is_lisp_extension(ext: &str) -> (b: bool)
    ensures
        b == (dialect_for_extension_spec(ext@) != Dialect::SchemeSuperset),
{
    match dialect_for_extension(ext) {
        Dialect::SchemeSuperset => false,
        _ => true,
    }
}

/// The entries of `entries` that define `name`, in order.
pub open spec fn named_in(entries: Seq<OutlineEntryV>, name: Seq<char>) -> Seq<OutlineEntryV> {
    entries.filter(|e: OutlineEntryV| e.name == Some(name))
}

/// The definitions of `name` in `source` read as `dialect`: the outline
/// entries that define it, in order.
pub fn definitions_named(source: &str, dialect: Dialect, name: &str) -> (r: Vec<OutlineEntry>)
    ensures
        exists|forms: Seq<Node>|
            reads_as(source@, dialect_name_spec(dialect), false, forms) && r@.map_values(|e: OutlineEntry| e@)
                == named_in(#[trigger] outline_spec(source@, forms), name@),
{
    let all = outline(source, dialect);
    let ghost av = all@.map_values(|e: OutlineEntry| e@);
    let nc = chars_of(name);
    let mut r: Vec<OutlineEntry> = Vec::new();
    let mut i: usize = 0;
    assert(av.take(0).filter(|e: OutlineEntryV| e.name == Some(name@)) =~= Seq::<OutlineEntryV>::empty()) by {
        reveal(Seq::filter);
    }
    while i < all.len()
        invariant
            av == all@.map_values(|e: OutlineEntry| e@),
            nc@ == name@,
            i <= all@.len(),
            r@.map_values(|e: OutlineEntry| e@) == av.take(i as int).filter(|e: OutlineEntryV| e.name == Some(name@)),
        decreases all.len() - i,
    {
        let e = &all[i];
        assert(av[i as int] == e@);
        let hit = match &e.name {
            Some(n) => {
                let c = chars_of(n.as_str());
                crate::text::seq_eq(c.as_slice(), nc.as_slice())
            },
            None => false,
        };
        assert(hit == (e@.name == Some(name@)));
        proof {
            let p = av.take(i + 1);
            assert(p.drop_last() == av.take(i as int));
            assert(p.last() == av[i as int]);
            reveal(Seq::filter);
        }
        if hit {
            r.push(e.clone_entry());
        }
        assert(r@.map_values(|e: OutlineEntry| e@) =~= av.take(i + 1).filter(|e: OutlineEntryV| e.name == Some(name@)));
        i = i + 1;
    }
    assert(av.take(all@.len() as int) == av);
    r
}

impl OutlineEntry {
    /// A copy of the entry.
    fn clone_entry(&self) -> (r: OutlineEntry)
        ensures
            r@ == self@,
    {
        OutlineEntry {
            line: self.line,
            hash: self.hash.clone(),
            kind: self.kind.clone(),
            name: match &self.name {
                Some(n) => Some(n.clone()),
                None => None,
            },
        }
    }
}

} // verus!
