//! Comparing two versions of a file at definition granularity: the "which
//! units changed" view read before the form diff.
//!
//! A unit is a top-level form that lispexp's definition annotator (with the
//! dialect's bundled registry) recognizes and that introduces a name. Units
//! are matched across the versions by `(kind, name, dispatch signature)`: a
//! plain definition has no signature, a method carries its qualifiers and
//! specializers, so two methods of one generic stay apart. Within
//! one key, structurally equal instances are consumed first (unchanged),
//! the rest are paired in order (changed), and what is left over is added
//! or removed. A rename reads as one removed and one added unit. The
//! top-level forms that define nothing are compared only as a whole.

use vstd::prelude::*;

use crate::diff::{diff_forms, form_diff_is, form_diff_text, form_text, pad, push_pad, frag, line_table_of, line_u32, one_line_spec, FileDiff, FormDiff, UnitDiff, UnitStatus};
use crate::edit::{text_le, text_le_exec};
use crate::format::node_text;
use lispexp::annotate::{annotate_tree, bundled_registry, Role::{DispatchValue, Name, Qualifier, SpecializedArglist}};
use lispexp::Dialect::SchemeSuperset;
use lispexp::{parse, Datum, Options};
use crate::hash::anchor_hash_spec;
use crate::reader::{byte_char_map, byte_to_char_map, dialect_name, dialect_name_spec, map_offset, moff, read, reads_as, Dialect, Node};
use vstd::utf8::encode_utf8;
use crate::sexpr::{struct_eq, struct_eq_spec};
use crate::linehash::{decimal, decimal_string};
use crate::text::{chars_of, line_numbers, nl_count, push_char, rust_line_spans, rust_lines, string_of_range};

verus! {

/// A definition form that lispexp's annotator finds, as plain values: the
/// byte offset where it starts, its head, the name it defines (the name
/// datum's symbol, or the head symbol of a `(setf foo)` / `(square n)`
/// style name), its method qualifiers and Clojure dispatch value verbatim,
/// and, when it has a specialized arglist, each required parameter's
/// specializer verbatim (none for an unspecialized one).
pub type Definition = (u32, String, Option<String>, Vec<String>, Option<Vec<Option<String>>>);

/// What a [`Definition`] says.
pub struct DefinitionV {
    pub start: u32,
    pub head: Seq<char>,
    pub name: Option<Seq<char>>,
    pub qualifiers: Seq<Seq<char>>,
    pub specializers: Option<Seq<Option<Seq<char>>>>,
}

pub open spec fn opt_str(o: Option<String>) -> Option<Seq<char>> {
    match o {
        Some(s) => Some(s@),
        None => None,
    }
}

pub open spec fn def_view(d: Definition) -> DefinitionV {
    DefinitionV {
        start: d.0,
        head: d.1@,
        name: opt_str(d.2),
        qualifiers: d.3@.map_values(|q: String| q@),
        specializers: match d.4 {
            Some(v) => Some(v@.map_values(|q: Option<String>| opt_str(q))),
            None => None,
        },
    }
}

/// The definition forms lispexp's annotator (`annotate_tree` with the
/// dialect's `bundled_registry`) finds in `source` parsed under the preset
/// for the dialect named `dialect`, in its order (outer before inner).
pub uninterp spec fn definitions(source: Seq<char>, dialect: Seq<char>) -> Seq<DefinitionV>;

/// `lispexp::annotate::annotate_tree` over the parse of `source`, with the
/// dialect's bundled registry, each annotated form converted to plain
/// values. The contract names the result ([`definitions`]).
#[verifier::external_body]
fn lx_definitions(source: &str, dialect: &str) -> (r: Vec<Definition>)
    ensures
        r@.map_values(|d: Definition| def_view(d)) == definitions(source@, dialect@),
{
    let d = dialect.parse().unwrap_or(SchemeSuperset);
    let p = parse(source, &Options::for_dialect(d));
    let t = |x: &Datum| x.text(source).to_string();
    annotate_tree(&p.data, &bundled_registry(d)).iter().map(|a| (
        a.form.span.start,
        a.head.into(),
        a.first(Name).and_then(|n| n.as_symbol().or(n.head_symbol())).map(str::to_string),
        a.all(Qualifier).chain(a.first(DispatchValue)).map(t).collect(),
        a.first(SpecializedArglist).map(|_| a.specialized_params().iter().map(|q| q.specializer.map(t)).collect()),
    )).collect()
}

/// `ws` joined with single spaces.
pub open spec fn spaced(ws: Seq<Seq<char>>) -> Seq<char>
    decreases ws.len(),
{
    if ws.len() == 0 {
        Seq::empty()
    } else if ws.len() == 1 {
        ws[0]
    } else {
        spaced(ws.drop_last()) + " "@ + ws.last()
    }
}

/// A specializer as the signature shows it: `t` for an unspecialized
/// parameter.
pub open spec fn specializer_text(s: Option<Seq<char>>) -> Seq<char> {
    match s {
        Some(t) => t,
        None => "t"@,
    }
}

/// A definition's dispatch signature: a method's qualifiers then its
/// specializers in parentheses (`:around (circle)`); bare qualifiers or a
/// Clojure dispatch value; or none for a plain definition.
pub open spec fn signature_of(f: DefinitionV) -> Option<Seq<char>> {
    match f.specializers {
        Some(ss) => Some(
            spaced(f.qualifiers.push("("@ + spaced(ss.map_values(|q: Option<Seq<char>>| specializer_text(q))) + ")"@)),
        ),
        None => if f.qualifiers.len() > 0 {
            Some(spaced(f.qualifiers))
        } else {
            None
        },
    }
}

/// The first of `defs[k..]` that starts where `d` does.
pub open spec fn def_at(src: Seq<char>, defs: Seq<DefinitionV>, d: Node, k: int) -> Option<DefinitionV>
    decreases defs.len() - k,
{
    if k < 0 || k >= defs.len() {
        None
    } else if moff(byte_char_map(src), defs[k].start as int) == d.start {
        Some(defs[k])
    } else {
        def_at(src, defs, d, k + 1)
    }
}

/// The 1-based line a form starts on, saturating at `u32::MAX`.
pub open spec fn start_line(src: Seq<char>, d: Node) -> u32 {
    if nl_count(src, d.start as int) < u32::MAX {
        (nl_count(src, d.start as int) + 1) as u32
    } else {
        u32::MAX
    }
}

/// A unit as a value: its kind, name, signature, anchor line and hash, and
/// its form.
pub struct UnitV {
    pub kind: Seq<char>,
    pub name: Seq<char>,
    pub sig: Option<Seq<char>>,
    pub line: u32,
    pub hash: Seq<char>,
    pub form: Node,
}

/// The unit datum `d` of `src` makes, if the first definition form found
/// at its start introduces a name.
pub open spec fn unit_of(src: Seq<char>, defs: Seq<DefinitionV>, d: Node) -> Option<UnitV> {
    match def_at(src, defs, d, 0) {
        Some(f) => match f.name {
            Some(n) => Some(
                UnitV {
                    kind: f.head,
                    name: n,
                    sig: signature_of(f),
                    line: start_line(src, d),
                    hash: anchor_hash_spec(encode_utf8(node_text(src, d))),
                    form: d,
                },
            ),
            None => None,
        },
        None => None,
    }
}

/// The units among `forms[..k]`, in order.
pub open spec fn units_upto(src: Seq<char>, defs: Seq<DefinitionV>, forms: Seq<Node>, k: int) -> Seq<UnitV>
    decreases k,
{
    if k <= 0 || k > forms.len() {
        Seq::empty()
    } else {
        units_upto(src, defs, forms, k - 1) + match unit_of(src, defs, forms[k - 1]) {
            Some(u) => seq![u],
            None => Seq::empty(),
        }
    }
}

/// The forms among `forms[..k]` that are no unit, in order.
pub open spec fn others_upto(src: Seq<char>, defs: Seq<DefinitionV>, forms: Seq<Node>, k: int) -> Seq<Node>
    decreases k,
{
    if k <= 0 || k > forms.len() {
        Seq::empty()
    } else {
        others_upto(src, defs, forms, k - 1) + if unit_of(src, defs, forms[k - 1]) is None {
            seq![forms[k - 1]]
        } else {
            Seq::empty()
        }
    }
}

/// A unit's matching key: kind, name and signature.
pub type KeyV = (Seq<char>, Seq<char>, Option<Seq<char>>);

pub open spec fn ukey(u: UnitV) -> KeyV {
    (u.kind, u.name, u.sig)
}

/// Whether signature `a` sorts no later than `b`: none first.
pub open spec fn sig_le(a: Option<Seq<char>>, b: Option<Seq<char>>) -> bool {
    match (a, b) {
        (None, _) => true,
        (Some(_), None) => false,
        (Some(x), Some(y)) => text_le(x, y),
    }
}

/// Whether key `a` sorts no later than `b`: by kind, then by name, then by
/// signature.
pub open spec fn ukey_le(a: KeyV, b: KeyV) -> bool {
    ||| (a.0 != b.0 && text_le(a.0, b.0))
    ||| (a.0 == b.0 && a.1 != b.1 && text_le(a.1, b.1))
    ||| (a.0 == b.0 && a.1 == b.1 && sig_le(a.2, b.2))
}

pub open spec fn insert_key(s: Seq<KeyV>, x: KeyV) -> Seq<KeyV>
    decreases s.len(),
{
    if s.len() == 0 {
        seq![x]
    } else if ukey_le(s.last(), x) {
        s.push(x)
    } else {
        insert_key(s.drop_last(), x).push(s.last())
    }
}

pub open spec fn sort_keys(s: Seq<KeyV>) -> Seq<KeyV>
    decreases s.len(),
{
    if s.len() == 0 {
        s
    } else {
        insert_key(sort_keys(s.drop_last()), s.last())
    }
}

/// `s[..k]` without repeats of the element before.
pub open spec fn dedup_keys(s: Seq<KeyV>, k: int) -> Seq<KeyV>
    decreases k,
{
    if k <= 0 || k > s.len() {
        Seq::empty()
    } else {
        dedup_keys(s, k - 1) + if k >= 2 && s[k - 2] == s[k - 1] {
            Seq::empty()
        } else {
            seq![s[k - 1]]
        }
    }
}

pub open spec fn keys_of(us: Seq<UnitV>) -> Seq<KeyV> {
    Seq::new(us.len(), |i: int| ukey(us[i]))
}

/// Every key of either version, once each, in key order.
pub open spec fn all_keys(ou: Seq<UnitV>, nu: Seq<UnitV>) -> Seq<KeyV> {
    let s = sort_keys(keys_of(ou) + keys_of(nu));
    dedup_keys(s, s.len() as int)
}

/// The units among `us[..n]` with key `k`, in order.
pub open spec fn with_key(us: Seq<UnitV>, k: KeyV, n: int) -> Seq<UnitV>
    decreases n,
{
    if n <= 0 || n > us.len() {
        Seq::empty()
    } else {
        with_key(us, k, n - 1) + if ukey(us[n - 1]) == k {
            seq![us[n - 1]]
        } else {
            Seq::empty()
        }
    }
}

/// The first of `news[j..]` not yet `used` and structurally equal to `f`.
pub open spec fn first_free_eq(news: Seq<UnitV>, used: Seq<bool>, f: Node, j: int) -> Option<int>
    decreases news.len() - j,
{
    if j < 0 || j >= news.len() {
        None
    } else if !used[j] && struct_eq_spec(f, news[j].form) {
        Some(j)
    } else {
        first_free_eq(news, used, f, j + 1)
    }
}

/// After matching `olds[..i]` against `news`: which of `news` an equal old
/// instance consumed, and the old instances left unmatched, in order.
pub open spec fn match_fold(olds: Seq<UnitV>, news: Seq<UnitV>, i: int) -> (Seq<bool>, Seq<UnitV>)
    decreases i,
{
    if i <= 0 || i > olds.len() {
        (Seq::new(news.len(), |q: int| false), Seq::empty())
    } else {
        let (used, om) = match_fold(olds, news, i - 1);
        match first_free_eq(news, used, olds[i - 1].form, 0) {
            Some(j) => (used.update(j, true), om),
            None => (used, om.push(olds[i - 1])),
        }
    }
}

/// The units among `news[..n]` not `used`, in order.
pub open spec fn free_news(news: Seq<UnitV>, used: Seq<bool>, n: int) -> Seq<UnitV>
    decreases n,
{
    if n <= 0 || n > news.len() {
        Seq::empty()
    } else {
        free_news(news, used, n - 1) + if !used[n - 1] {
            seq![news[n - 1]]
        } else {
            Seq::empty()
        }
    }
}

/// For key `k`: the new side of each changed pair, the added units and the
/// removed ones.
pub open spec fn key_parts(ou: Seq<UnitV>, nu: Seq<UnitV>, k: KeyV) -> (Seq<UnitV>, Seq<UnitV>, Seq<UnitV>) {
    let olds = with_key(ou, k, ou.len() as int);
    let news = with_key(nu, k, nu.len() as int);
    let (used, om) = match_fold(olds, news, olds.len() as int);
    let nm = free_news(news, used, news.len() as int);
    let c = if om.len() <= nm.len() {
        om.len() as int
    } else {
        nm.len() as int
    };
    (nm.take(c), nm.skip(c), om.skip(c))
}

/// [`key_parts`] of `keys[..i]`, concatenated part by part.
pub open spec fn parts_upto(ou: Seq<UnitV>, nu: Seq<UnitV>, keys: Seq<KeyV>, i: int) -> (Seq<UnitV>, Seq<UnitV>, Seq<UnitV>)
    decreases i,
{
    if i <= 0 || i > keys.len() {
        (Seq::empty(), Seq::empty(), Seq::empty())
    } else {
        let (c, a, r) = parts_upto(ou, nu, keys, i - 1);
        let (c1, a1, r1) = key_parts(ou, nu, keys[i - 1]);
        (c + c1, a + a1, r + r1)
    }
}

/// What a unit diff reports of a unit.
pub struct UnitSpec {
    pub kind: Seq<char>,
    pub name: Seq<char>,
    pub signature: Option<Seq<char>>,
    pub status: UnitStatus,
    pub line: u32,
    pub hash: Seq<char>,
}

pub open spec fn as_diff(u: UnitV, st: UnitStatus) -> UnitSpec {
    UnitSpec { kind: u.kind, name: u.name, signature: u.sig, status: st, line: u.line, hash: u.hash }
}

pub open spec fn diffs(us: Seq<UnitV>, st: UnitStatus) -> Seq<UnitSpec> {
    Seq::new(us.len(), |i: int| as_diff(us[i], st))
}

/// The unit differences of `ou` (old) and `nu` (new): the changed units
/// (new side), then the added, then the removed, each in key order.
pub open spec fn unit_diffs(ou: Seq<UnitV>, nu: Seq<UnitV>) -> Seq<UnitSpec> {
    let keys = all_keys(ou, nu);
    let (c, a, r) = parts_upto(ou, nu, keys, keys.len() as int);
    diffs(c, UnitStatus::Changed) + diffs(a, UnitStatus::Added) + diffs(r, UnitStatus::Removed)
}

/// Whether the forms that define nothing differ: in number, or one of them
/// is not structurally equal to its counterpart.
pub open spec fn others_changed(oo: Seq<Node>, no: Seq<Node>) -> bool {
    oo.len() != no.len() || exists|i: int| 0 <= i < oo.len() && !struct_eq_spec(#[trigger] oo[i], no[i])
}

/// The units of `src` read as `forms` under the dialect named `dn`.
pub open spec fn units_of(src: Seq<char>, forms: Seq<Node>, dn: Seq<char>) -> Seq<UnitV> {
    units_upto(src, definitions(src, dn), forms, forms.len() as int)
}

/// The forms of `src` read as `forms` under the dialect named `dn` that are
/// no unit.
pub open spec fn others_of(src: Seq<char>, forms: Seq<Node>, dn: Seq<char>) -> Seq<Node> {
    others_upto(src, definitions(src, dn), forms, forms.len() as int)
}

/// The file diff of `os` (read as `fo`) and `ns` (read as `fw`) under the
/// dialect named `dn`.
pub open spec fn file_diff_spec(os: Seq<char>, ns: Seq<char>, fo: Seq<Node>, fw: Seq<Node>, dn: Seq<char>) -> (Seq<UnitSpec>, bool) {
    (
        unit_diffs(units_of(os, fo, dn), units_of(ns, fw, dn)),
        others_changed(others_of(os, fo, dn), others_of(ns, fw, dn)),
    )
}

pub open spec fn unit_spec_of(u: UnitDiff) -> UnitSpec {
    UnitSpec {
        kind: u.kind@,
        name: u.name@,
        signature: match u.signature {
            Some(s) => Some(s@),
            None => None,
        },
        status: u.status,
        line: u.line,
        hash: u.hash@,
    }
}

/// What a [`FileDiff`] reports.
pub open spec fn file_diff_view(r: FileDiff) -> (Seq<UnitSpec>, bool) {
    (Seq::new(r.units@.len(), |i: int| unit_spec_of(r.units@[i])), r.other_forms_changed)
}

// --- Executable -------------------------------------------------------------------------

/// A unit of one version: its kind, name, anchor, and form.
struct Unit<'a> {
    kind: String,
    name: String,
    sig: Option<String>,
    line: u32,
    hash: String,
    form: &'a Node,
}

impl<'a> View for Unit<'a> {
    type V = UnitV;

    closed spec fn view(&self) -> UnitV {
        UnitV { kind: self.kind@, name: self.name@, sig: opt_str(self.sig), line: self.line, hash: self.hash@, form: *self.form }
    }
}

fn clone_opt(o: &Option<String>) -> (r: Option<String>)
    ensures
        opt_str(r) == opt_str(*o),
{
    match o {
        Some(x) => Some(x.clone()),
        None => None,
    }
}

spec fn uvs<'a>(v: Seq<Unit<'a>>) -> Seq<UnitV> {
    Seq::new(v.len(), |i: int| v[i]@)
}

/// A key as the executable code holds it.
type Key = (Vec<char>, Vec<char>, Option<Vec<char>>);

spec fn kv(k: Key) -> KeyV {
    (k.0@, k.1@, match k.2 {
        Some(x) => Some(x@),
        None => None,
    })
}

spec fn kvs(v: Seq<Key>) -> Seq<KeyV> {
    Seq::new(v.len(), |i: int| kv(v[i]))
}

fn clone_key(k: &Key) -> (r: Key)
    ensures
        kv(r) == kv(*k),
{
    let s = match &k.2 {
        Some(x) => Some(x.clone()),
        None => None,
    };
    (k.0.clone(), k.1.clone(), s)
}

fn clone_unit<'a>(u: &Unit<'a>) -> (r: Unit<'a>)
    ensures
        r@ == u@,
{
    Unit { kind: u.kind.clone(), name: u.name.clone(), sig: clone_opt(&u.sig), line: u.line, hash: u.hash.clone(), form: u.form }
}

fn push_unit<'a>(v: &mut Vec<Unit<'a>>, u: Unit<'a>)
    ensures
        uvs(final(v)@) == uvs(old(v)@).push(u@),
{
    let ghost o = uvs(v@);
    v.push(u);
    assert(uvs(v@) =~= o.push(u@));
}

/// `ws` joined with single spaces.
fn spaced_exec(ws: &Vec<String>) -> (r: String)
    ensures
        r@ == spaced(ws@.map_values(|q: String| q@)),
{
    let ghost v = ws@.map_values(|q: String| q@);
    let mut r = String::new();
    let mut i: usize = 0;
    proof {
        reveal_strlit(" ");
    }
    while i < ws.len()
        invariant
            v == ws@.map_values(|q: String| q@),
            i <= ws@.len(),
            r@ == spaced(v.take(i as int)),
        decreases ws.len() - i,
    {
        if i > 0 {
            r.append(" ");
        }
        r.append(ws[i].as_str());
        proof {
            let t = v.take(i + 1);
            assert(t.drop_last() == v.take(i as int));
            assert(t.last() == ws@[i as int]@);
            if i == 0 {
                assert(v.take(0) =~= Seq::<Seq<char>>::empty());
            }
        }
        i = i + 1;
    }
    assert(v.take(ws@.len() as int) == v);
    r
}

/// The dispatch signature of a definition (see [`signature_of`]).
fn signature_exec(f: &Definition) -> (r: Option<String>)
    ensures
        opt_str(r) == signature_of(def_view(*f)),
{
    if let Some(sp) = &f.4 {
        let mut specs: Vec<String> = Vec::new();
        let mut i: usize = 0;
        let ghost sv = sp@.map_values(|q: Option<String>| opt_str(q));
        proof {
            reveal_strlit("t");
        }
        while i < sp.len()
            invariant
                sv == sp@.map_values(|q: Option<String>| opt_str(q)),
                i <= sp@.len(),
                specs@.map_values(|q: String| q@) == sv.take(i as int).map_values(
                    |q: Option<Seq<char>>| specializer_text(q),
                ),
            decreases sp.len() - i,
        {
            let t = match &sp[i] {
                Some(x) => x.clone(),
                None => String::from_str("t"),
            };
            assert(sv.len() == sp@.len());
            assert(specs@.map_values(|q: String| q@).len() == i);
            assert(t@ == specializer_text(sv[i as int]));
            let ghost tv = t@;
            let ghost prev = specs@;
            let ghost pm = sv.take(i as int).map_values(|q: Option<Seq<char>>| specializer_text(q));
            specs.push(t);
            proof {
                let a = specs@.map_values(|q: String| q@);
                let b = sv.take(i + 1).map_values(|q: Option<Seq<char>>| specializer_text(q));
                assert(a.len() == b.len());
                assert forall|k: int| 0 <= k < a.len() implies a[k] == b[k] by {
                    if k < i {
                        assert(a[k] == specs@[k]@);
                        assert(specs@[k] == prev[k]);
                        assert(prev.map_values(|q: String| q@)[k] == pm[k]);
                        assert(pm[k] == specializer_text(sv[k]));
                    } else {
                        assert(a[k] == tv);
                    }
                }
                assert(a =~= b);
            }
            i = i + 1;
        }
        assert(sv.take(i as int) == sv);
        let inner = spaced_exec(&specs);
        let mut paren = String::from_str("(");
        paren.append(inner.as_str());
        paren.append(")");
        proof {
            reveal_strlit("(");
            reveal_strlit(")");
        }
        let mut words: Vec<String> = Vec::new();
        let mut j: usize = 0;
        while j < f.3.len()
            invariant
                j <= f.3@.len(),
                words@.map_values(|q: String| q@) == f.3@.map_values(|q: String| q@).take(j as int),
            decreases f.3.len() - j,
        {
            assert(f.3@.map_values(|q: String| q@).len() == f.3@.len());
            assert(words@.map_values(|q: String| q@).len() == j);
            let w = f.3[j].clone();
            let ghost wv = w@;
            assert(wv == f.3@[j as int]@);
            words.push(w);
            proof {
                let a = words@.map_values(|q: String| q@);
                let b = f.3@.map_values(|q: String| q@).take(j + 1);
                assert(a.len() == b.len());
                assert forall|k: int| 0 <= k < a.len() implies a[k] == b[k] by {
                    if k < j {
                        assert(a[k] == words@[k]@);
                    } else {
                        assert(a[k] == wv);
                    }
                }
                assert(a =~= b);
            }
            j = j + 1;
        }
        let ghost qv = f.3@.map_values(|q: String| q@);
        assert(qv.take(j as int) == qv);
        words.push(paren);
        assert(words@.map_values(|q: String| q@) =~= qv.push(
            "("@ + spaced(sv.map_values(|q: Option<Seq<char>>| specializer_text(q))) + ")"@,
        ));
        Some(spaced_exec(&words))
    } else if f.3.len() > 0 {
        Some(spaced_exec(&f.3))
    } else {
        None
    }
}

/// The first of `defs` that starts where `d` does (see [`def_at`]).
fn def_at_exec<'d>(cs: &[char], map: &Vec<usize>, defs: &'d Vec<Definition>, d: &Node) -> (r: Option<&'d Definition>)
    requires
        map@ == byte_char_map(cs@),
        map@.len() >= 1,
    ensures
        match r {
            Some(f) => def_at(cs@, defs@.map_values(|x: Definition| def_view(x)), *d, 0) == Some(def_view(*f)),
            None => def_at(cs@, defs@.map_values(|x: Definition| def_view(x)), *d, 0) is None,
        },
{
    let ghost dv = defs@.map_values(|x: Definition| def_view(x));
    let mut k: usize = 0;
    while k < defs.len()
        invariant
            dv == defs@.map_values(|x: Definition| def_view(x)),
            map@ == byte_char_map(cs@),
            map@.len() >= 1,
            k <= defs@.len(),
            def_at(cs@, dv, *d, 0) == def_at(cs@, dv, *d, k as int),
        decreases defs.len() - k,
    {
        if map_offset(map, defs[k].0) == d.start {
            return Some(&defs[k]);
        }
        k = k + 1;
    }
    None
}

/// The units and the other forms of `forms`, the data of `cs`, whose
/// definition forms are `defs`.
fn units_exec<'a>(
    cs: &[char],
    nl: &Vec<usize>,
    defs: &Vec<Definition>,
    forms: &'a [Node],
) -> (r: (Vec<Unit<'a>>, Vec<&'a Node>))
    requires
        nl@.len() == cs@.len() + 1,
        forall|k: int| 0 <= k <= cs@.len() ==> nl@[k] == nl_count(cs@, k),
    ensures
        uvs(r.0@) == units_upto(cs@, defs@.map_values(|x: Definition| def_view(x)), forms@, forms@.len() as int),
        crate::refactor::derefs(r.1@) == others_upto(
            cs@,
            defs@.map_values(|x: Definition| def_view(x)),
            forms@,
            forms@.len() as int,
        ),
{
    let ghost dv = defs@.map_values(|x: Definition| def_view(x));
    let map = byte_to_char_map(cs);
    let mut us: Vec<Unit<'a>> = Vec::new();
    let mut os: Vec<&'a Node> = Vec::new();
    let mut i: usize = 0;
    assert(uvs(us@) =~= Seq::<UnitV>::empty());
    assert(crate::refactor::derefs(os@) =~= Seq::<Node>::empty());
    while i < forms.len()
        invariant
            nl@.len() == cs@.len() + 1,
            forall|k: int| 0 <= k <= cs@.len() ==> nl@[k] == nl_count(cs@, k),
            dv == defs@.map_values(|x: Definition| def_view(x)),
            map@ == byte_char_map(cs@),
            map@.len() >= 1,
            i <= forms@.len(),
            uvs(us@) == units_upto(cs@, dv, forms@, i as int),
            crate::refactor::derefs(os@) == others_upto(cs@, dv, forms@, i as int),
        decreases forms.len() - i,
    {
        let d = &forms[i];
        let ghost o = crate::refactor::derefs(os@);
        let found = def_at_exec(cs, &map, defs, d);
        let mut pushed = false;
        if let Some(f) = found {
            if let Some(n) = &f.2 {
                let start = if d.start <= cs.len() {
                    d.start
                } else {
                    cs.len()
                };
                let line: u32 = if nl[start] < 4294967295 {
                    (nl[start] + 1) as u32
                } else {
                    4294967295
                };
                let text = crate::format::node_string(cs, d);
                let hash = crate::hash::anchor_hash(text.as_str().as_bytes());
                let u = Unit { kind: f.1.clone(), name: n.clone(), sig: signature_exec(f), line, hash, form: d };
                proof {
                    assert(nl_count(cs@, d.start as int) == nl_count(cs@, start as int));
                    assert(u@ == unit_of(cs@, dv, *d)->0);
                }
                push_unit(&mut us, u);
                pushed = true;
            }
        }
        if !pushed {
            os.push(d);
            assert(crate::refactor::derefs(os@) =~= o.push(*d));
        }
        i = i + 1;
    }
    (us, os)
}

fn key_of_unit(u: &Unit) -> (k: Key)
    ensures
        kv(k) == ukey(u@),
{
    let s = match &u.sig {
        Some(x) => Some(chars_of(x.as_str())),
        None => None,
    };
    (chars_of(u.kind.as_str()), chars_of(u.name.as_str()), s)
}

fn key_eq(a: &Key, b: &Key) -> (r: bool)
    ensures
        r == (kv(*a) == kv(*b)),
{
    let same_sig = match (&a.2, &b.2) {
        (Some(x), Some(y)) => crate::text::seq_eq(x.as_slice(), y.as_slice()),
        (None, None) => true,
        _ => false,
    };
    crate::text::seq_eq(a.0.as_slice(), b.0.as_slice()) && crate::text::seq_eq(a.1.as_slice(), b.1.as_slice())
        && same_sig
}

fn ukey_le_exec(a: &Key, b: &Key) -> (r: bool)
    ensures
        r == ukey_le(kv(*a), kv(*b)),
{
    if !crate::text::seq_eq(a.0.as_slice(), b.0.as_slice()) {
        text_le_exec(a.0.as_slice(), b.0.as_slice())
    } else if !crate::text::seq_eq(a.1.as_slice(), b.1.as_slice()) {
        text_le_exec(a.1.as_slice(), b.1.as_slice())
    } else {
        match (&a.2, &b.2) {
            (None, _) => true,
            (Some(_), None) => false,
            (Some(x), Some(y)) => text_le_exec(x.as_slice(), y.as_slice()),
        }
    }
}

fn insert_key_exec(sorted: &mut Vec<Key>, x: Key)
    ensures
        kvs(final(sorted)@) == insert_key(kvs(old(sorted)@), kv(x)),
{
    let ghost xv = kv(x);
    let ghost s0 = kvs(sorted@);
    let mut p = sorted.len();
    assert(s0.subrange(0, p as int) == s0);
    assert(insert_key(s0, xv) == insert_key(s0.subrange(0, p as int), xv) + s0.subrange(p as int, s0.len() as int));
    while p > 0 && !ukey_le_exec(&sorted[p - 1], &x)
        invariant
            p <= sorted@.len(),
            kvs(sorted@) == s0,
            xv == kv(x),
            insert_key(s0, xv) == insert_key(s0.subrange(0, p as int), xv) + s0.subrange(p as int, s0.len() as int),
        decreases p,
    {
        let ghost s = s0.subrange(0, p as int);
        assert(s.drop_last() == s0.subrange(0, p - 1));
        assert(s.last() == s0[p - 1]);
        assert(seq![s0[p - 1]] + s0.subrange(p as int, s0.len() as int) == s0.subrange(p - 1, s0.len() as int));
        p = p - 1;
    }
    proof {
        let s = s0.subrange(0, p as int);
        if p > 0 {
            assert(s.last() == s0[p - 1]);
        }
        assert(insert_key(s, xv) == s.push(xv));
    }
    sorted.insert(p, x);
    assert(kvs(sorted@) =~= s0.subrange(0, p as int).push(xv) + s0.subrange(p as int, s0.len() as int));
}

/// Every key of `ou` and `nu`, once each, in key order (see [`all_keys`]).
fn all_keys_exec(ou: &Vec<Unit>, nu: &Vec<Unit>) -> (r: Vec<Key>)
    ensures
        kvs(r@) == all_keys(uvs(ou@), uvs(nu@)),
{
    let ghost all = keys_of(uvs(ou@)) + keys_of(uvs(nu@));
    let mut ks: Vec<Key> = Vec::new();
    let mut i: usize = 0;
    assert(kvs(ks@) =~= Seq::<KeyV>::empty());
    while i < ou.len()
        invariant
            i <= ou@.len(),
            kvs(ks@) == keys_of(uvs(ou@)).take(i as int),
        decreases ou.len() - i,
    {
        let k = key_of_unit(&ou[i]);
        let ghost k0 = kvs(ks@);
        let ghost kk = kv(k);
        assert(uvs(ou@)[i as int] == ou@[i as int]@);
        assert(keys_of(uvs(ou@))[i as int] == kk);
        ks.push(k);
        assert(kvs(ks@) =~= k0.push(kk));
        assert(keys_of(uvs(ou@)).take(i + 1) =~= keys_of(uvs(ou@)).take(i as int).push(kk));
        i = i + 1;
    }
    let mut j: usize = 0;
    while j < nu.len()
        invariant
            j <= nu@.len(),
            kvs(ks@) == keys_of(uvs(ou@)) + keys_of(uvs(nu@)).take(j as int),
        decreases nu.len() - j,
    {
        let k = key_of_unit(&nu[j]);
        let ghost k0 = kvs(ks@);
        let ghost kk = kv(k);
        assert(uvs(nu@)[j as int] == nu@[j as int]@);
        assert(keys_of(uvs(nu@))[j as int] == kk);
        ks.push(k);
        assert(kvs(ks@) =~= k0.push(kk));
        assert(keys_of(uvs(nu@)).take(j + 1) =~= keys_of(uvs(nu@)).take(j as int).push(kk));
        assert(kvs(ks@) =~= keys_of(uvs(ou@)) + keys_of(uvs(nu@)).take(j + 1));
        j = j + 1;
    }
    assert(kvs(ks@) =~= all);
    let n = ks.len();
    let mut sorted: Vec<Key> = Vec::new();
    let mut i: usize = 0;
    assert(kvs(sorted@) =~= sort_keys(all.subrange(0, 0)));
    while i < n
        invariant
            n == ks@.len(),
            all == kvs(ks@),
            all.len() == n,
            i <= n,
            kvs(sorted@) == sort_keys(all.subrange(0, i as int)),
        decreases n - i,
    {
        let k = clone_key(&ks[i]);
        proof {
            assert(all.subrange(0, i + 1).drop_last() == all.subrange(0, i as int));
            assert(all.subrange(0, i + 1).last() == all[i as int]);
            assert(all[i as int] == kv(k));
        }
        insert_key_exec(&mut sorted, k);
        i = i + 1;
    }
    assert(all.subrange(0, n as int) == all);
    let ghost t = kvs(sorted@);
    let mut r: Vec<Key> = Vec::new();
    let mut k: usize = 0;
    assert(kvs(r@) =~= dedup_keys(t, 0));
    while k < sorted.len()
        invariant
            t == kvs(sorted@),
            k <= sorted@.len(),
            kvs(r@) == dedup_keys(t, k as int),
        decreases sorted.len() - k,
    {
        let dup = k >= 1 && key_eq(&sorted[k - 1], &sorted[k]);
        let ghost r0 = kvs(r@);
        if !dup {
            let x = clone_key(&sorted[k]);
            r.push(x);
            assert(kvs(r@) =~= r0.push(t[k as int]));
        }
        k = k + 1;
    }
    r
}

/// The units of `us` with key `k`, in order.
fn with_key_exec<'a>(us: &Vec<Unit<'a>>, k: &Key) -> (r: Vec<Unit<'a>>)
    ensures
        uvs(r@) == with_key(uvs(us@), kv(*k), us@.len() as int),
{
    let mut r: Vec<Unit<'a>> = Vec::new();
    let mut i: usize = 0;
    assert(uvs(r@) =~= Seq::<UnitV>::empty());
    while i < us.len()
        invariant
            i <= us@.len(),
            uvs(r@) == with_key(uvs(us@), kv(*k), i as int),
        decreases us.len() - i,
    {
        let ki = key_of_unit(&us[i]);
        if key_eq(&ki, k) {
            push_unit(&mut r, clone_unit(&us[i]));
        }
        i = i + 1;
    }
    r
}

/// Match `olds` against `news` (see [`match_fold`]).
fn match_fold_exec<'a>(olds: &Vec<Unit<'a>>, news: &Vec<Unit<'a>>) -> (r: (Vec<bool>, Vec<Unit<'a>>))
    ensures
        (r.0@, uvs(r.1@)) == match_fold(uvs(olds@), uvs(news@), olds@.len() as int),
        r.0@.len() == news@.len(),
{
    let ghost ov = uvs(olds@);
    let ghost nv = uvs(news@);
    let mut used: Vec<bool> = Vec::new();
    let mut q: usize = 0;
    while q < news.len()
        invariant
            q <= news@.len(),
            used@ == Seq::new(q as nat, |x: int| false),
        decreases news.len() - q,
    {
        used.push(false);
        assert(used@ =~= Seq::new((q + 1) as nat, |x: int| false));
        q = q + 1;
    }
    let mut om: Vec<Unit<'a>> = Vec::new();
    assert(uvs(om@) =~= Seq::<UnitV>::empty());
    let mut i: usize = 0;
    while i < olds.len()
        invariant
            ov == uvs(olds@),
            nv == uvs(news@),
            i <= olds@.len(),
            used@.len() == news@.len(),
            (used@, uvs(om@)) == match_fold(ov, nv, i as int),
        decreases olds.len() - i,
    {
        let f = olds[i].form;
        assert(ov[i as int].form == *f);
        let mut j: usize = 0;
        let mut found: Option<usize> = None;
        while j < news.len() && found.is_none()
            invariant
                j <= news@.len(),
                used@.len() == news@.len(),
                nv == uvs(news@),
                match found {
                    Some(x) => first_free_eq(nv, used@, *f, 0) == Some(x as int) && x < news@.len(),
                    None => first_free_eq(nv, used@, *f, 0) == first_free_eq(nv, used@, *f, j as int),
                },
            decreases news.len() - j,
        {
            assert(nv[j as int].form == *news@[j as int].form);
            if !used[j] && struct_eq(f, news[j].form) {
                found = Some(j);
            }
            j = j + 1;
        }
        match found {
            Some(x) => {
                used.set(x, true);
            },
            None => {
                push_unit(&mut om, clone_unit(&olds[i]));
            },
        }
        i = i + 1;
    }
    (used, om)
}

/// The units of `news` not `used`, in order.
fn free_news_exec<'a>(news: &Vec<Unit<'a>>, used: &Vec<bool>) -> (r: Vec<Unit<'a>>)
    requires
        used@.len() == news@.len(),
    ensures
        uvs(r@) == free_news(uvs(news@), used@, news@.len() as int),
{
    let mut r: Vec<Unit<'a>> = Vec::new();
    let mut i: usize = 0;
    assert(uvs(r@) =~= Seq::<UnitV>::empty());
    while i < news.len()
        invariant
            i <= news@.len(),
            used@.len() == news@.len(),
            uvs(r@) == free_news(uvs(news@), used@, i as int),
        decreases news.len() - i,
    {
        if !used[i] {
            push_unit(&mut r, clone_unit(&news[i]));
        }
        i = i + 1;
    }
    r
}

fn push_units<'a>(v: &mut Vec<Unit<'a>>, w: &Vec<Unit<'a>>, from: usize, to: usize)
    requires
        from <= to <= w@.len(),
    ensures
        uvs(final(v)@) == uvs(old(v)@) + uvs(w@).subrange(from as int, to as int),
{
    let ghost o = uvs(v@);
    let mut i = from;
    while i < to
        invariant
            from <= i <= to,
            to <= w@.len(),
            uvs(v@) == o + uvs(w@).subrange(from as int, i as int),
        decreases to - i,
    {
        push_unit(v, clone_unit(&w[i]));
        assert(uvs(w@).subrange(from as int, i + 1) == uvs(w@).subrange(from as int, i as int).push(w@[i as int]@));
        i = i + 1;
    }
}

fn to_diffs(us: &Vec<Unit>, st: UnitStatus, out: &mut Vec<UnitDiff>)
    ensures
        Seq::new(final(out)@.len(), |i: int| unit_spec_of(final(out)@[i])) == Seq::new(
            old(out)@.len(),
            |i: int| unit_spec_of(old(out)@[i]),
        ) + diffs(uvs(us@), st),
{
    let ghost o = Seq::new(out@.len(), |i: int| unit_spec_of(out@[i]));
    let mut i: usize = 0;
    while i < us.len()
        invariant
            i <= us@.len(),
            Seq::new(out@.len(), |q: int| unit_spec_of(out@[q])) == o + diffs(uvs(us@), st).take(i as int),
        decreases us.len() - i,
    {
        let u = &us[i];
        let ghost before = Seq::new(out@.len(), |q: int| unit_spec_of(out@[q]));
        out.push(UnitDiff { kind: u.kind.clone(), name: u.name.clone(), signature: clone_opt(&u.sig), status: st, line: u.line, hash: u.hash.clone() });
        assert(Seq::new(out@.len(), |q: int| unit_spec_of(out@[q])) =~= before.push(as_diff(u@, st)));
        assert(diffs(uvs(us@), st).take(i + 1) =~= diffs(uvs(us@), st).take(i as int).push(as_diff(u@, st)));
        i = i + 1;
    }
    assert(diffs(uvs(us@), st).take(us@.len() as int) =~= diffs(uvs(us@), st));
}

/// Compare two versions of a source at definition granularity: the changed
/// units (with the new side's anchor), then the added and the removed ones,
/// each group in key order; and whether the top-level forms that define
/// nothing changed.
pub fn diff_files(old: &str, new: &str, dialect: Dialect) -> (r: FileDiff)
    ensures
        exists|fo: Seq<Node>, fw: Seq<Node>|
            reads_as(old@, dialect_name_spec(dialect), false, fo) && reads_as(new@, dialect_name_spec(dialect), false, fw)
                && #[trigger] file_diff_view(r) == file_diff_spec(old@, new@, fo, fw, dialect_name_spec(dialect)),
{
    let fo = read(old, dialect, false);
    let fw = read(new, dialect, false);
    let oc = chars_of(old);
    let nc = chars_of(new);
    let onl = line_numbers(oc.as_slice());
    let nnl = line_numbers(nc.as_slice());
    let dn = dialect_name(dialect);
    let odefs = lx_definitions(old, dn);
    let ndefs = lx_definitions(new, dn);
    let (ou, oo) = units_exec(oc.as_slice(), &onl, &odefs, fo.as_slice());
    let (nu, no) = units_exec(nc.as_slice(), &nnl, &ndefs, fw.as_slice());
    let ghost ouv = uvs(ou@);
    let ghost nuv = uvs(nu@);
    let keys = all_keys_exec(&ou, &nu);
    let ghost kseq = kvs(keys@);
    let mut cs: Vec<Unit> = Vec::new();
    let mut adds: Vec<Unit> = Vec::new();
    let mut rems: Vec<Unit> = Vec::new();
    assert(uvs(cs@) =~= Seq::<UnitV>::empty());
    assert(uvs(adds@) =~= Seq::<UnitV>::empty());
    assert(uvs(rems@) =~= Seq::<UnitV>::empty());
    let mut i: usize = 0;
    while i < keys.len()
        invariant
            ouv == uvs(ou@),
            nuv == uvs(nu@),
            kseq == kvs(keys@),
            i <= keys@.len(),
            (uvs(cs@), uvs(adds@), uvs(rems@)) == parts_upto(ouv, nuv, kseq, i as int),
        decreases keys.len() - i,
    {
        let k = &keys[i];
        assert(kseq[i as int] == kv(*k));
        let olds = with_key_exec(&ou, k);
        let news = with_key_exec(&nu, k);
        let (used, om) = match_fold_exec(&olds, &news);
        let nm = free_news_exec(&news, &used);
        let c = if om.len() <= nm.len() {
            om.len()
        } else {
            nm.len()
        };
        push_units(&mut cs, &nm, 0, c);
        push_units(&mut adds, &nm, c, nm.len());
        push_units(&mut rems, &om, c, om.len());
        proof {
            let nmv = uvs(nm@);
            let omv = uvs(om@);
            assert(nmv.subrange(0, c as int) == nmv.take(c as int));
            assert(nmv.subrange(c as int, nmv.len() as int) == nmv.skip(c as int));
            assert(omv.subrange(c as int, omv.len() as int) == omv.skip(c as int));
        }
        i = i + 1;
    }
    let mut units: Vec<UnitDiff> = Vec::new();
    assert(Seq::new(units@.len(), |q: int| unit_spec_of(units@[q])) =~= Seq::<UnitSpec>::empty());
    to_diffs(&cs, UnitStatus::Changed, &mut units);
    to_diffs(&adds, UnitStatus::Added, &mut units);
    to_diffs(&rems, UnitStatus::Removed, &mut units);
    let ghost oov = crate::refactor::derefs(oo@);
    let ghost nov = crate::refactor::derefs(no@);
    let mut other = oo.len() != no.len();
    if !other {
        let mut j: usize = 0;
        while j < oo.len() && !other
            invariant
                oo@.len() == no@.len(),
                oov == crate::refactor::derefs(oo@),
                nov == crate::refactor::derefs(no@),
                j <= oo@.len(),
                !other ==> forall|q: int| 0 <= q < j ==> struct_eq_spec(#[trigger] oov[q], nov[q]),
                other ==> exists|q: int| 0 <= q < oov.len() && !struct_eq_spec(#[trigger] oov[q], nov[q]),
            decreases oo.len() - j,
        {
            assert(oov[j as int] == *oo@[j as int] && nov[j as int] == *no@[j as int]);
            if !struct_eq(oo[j], no[j]) {
                other = true;
            }
            j = j + 1;
        }
    }
    assert(other == others_changed(oov, nov));
    let r = FileDiff { units, other_forms_changed: other };
    assert(file_diff_view(r) == file_diff_spec(old@, new@, fo@, fw@, dn@));
    r
}


// --- Deep diff -----------------------------------------------------------------------------

/// For key `k`: the old side of each changed pair, in the order of
/// [`key_parts`]'s new sides.
pub open spec fn key_olds(ou: Seq<UnitV>, nu: Seq<UnitV>, k: KeyV) -> Seq<UnitV> {
    let olds = with_key(ou, k, ou.len() as int);
    let news = with_key(nu, k, nu.len() as int);
    let (used, om) = match_fold(olds, news, olds.len() as int);
    let nm = free_news(news, used, news.len() as int);
    let c = if om.len() <= nm.len() {
        om.len() as int
    } else {
        nm.len() as int
    };
    om.take(c)
}

/// [`key_olds`] of `keys[..i]`, concatenated.
pub open spec fn olds_upto(ou: Seq<UnitV>, nu: Seq<UnitV>, keys: Seq<KeyV>, i: int) -> Seq<UnitV>
    decreases i,
{
    if i <= 0 || i > keys.len() {
        Seq::empty()
    } else {
        olds_upto(ou, nu, keys, i - 1) + key_olds(ou, nu, keys[i - 1])
    }
}

/// The changed pairs (old unit, new unit), in key order.
pub open spec fn changed_pairs(ou: Seq<UnitV>, nu: Seq<UnitV>) -> Seq<(UnitV, UnitV)> {
    let keys = all_keys(ou, nu);
    let n = parts_upto(ou, nu, keys, keys.len() as int).0;
    let o = olds_upto(ou, nu, keys, keys.len() as int);
    Seq::new(n.len(), |k: int| (o[k], n[k]))
}

/// Whether unit `u` passes the name filter.
pub open spec fn wanted(name: Option<Seq<char>>, u: UnitV) -> bool {
    match name {
        Some(w) => u.name == w,
        None => true,
    }
}

/// The pairs of `ps[..k]` that pass the filter and differ structurally.
pub open spec fn kept_pairs(ps: Seq<(UnitV, UnitV)>, name: Option<Seq<char>>, k: int) -> Seq<(UnitV, UnitV)>
    decreases k,
{
    if k <= 0 || k > ps.len() {
        Seq::empty()
    } else {
        kept_pairs(ps, name, k - 1) + if wanted(name, ps[k - 1].1) && !struct_eq_spec(ps[k - 1].0.form, ps[k - 1].1.form) {
            seq![ps[k - 1]]
        } else {
            Seq::empty()
        }
    }
}

/// The units of `us[..k]` that pass the filter.
pub open spec fn kept_units(us: Seq<UnitV>, name: Option<Seq<char>>, k: int) -> Seq<UnitV>
    decreases k,
{
    if k <= 0 || k > us.len() {
        Seq::empty()
    } else {
        kept_units(us, name, k - 1) + if wanted(name, us[k - 1]) {
            seq![us[k - 1]]
        } else {
            Seq::empty()
        }
    }
}

/// Pair `x` inserted into `s` (sorted by the new side's line) after every
/// pair on a line no later than its own.
pub open spec fn insert_pair(s: Seq<(UnitV, UnitV)>, x: (UnitV, UnitV)) -> Seq<(UnitV, UnitV)>
    decreases s.len(),
{
    if s.len() == 0 {
        seq![x]
    } else if s.last().1.line <= x.1.line {
        s.push(x)
    } else {
        insert_pair(s.drop_last(), x).push(s.last())
    }
}

/// `s` stably sorted by the new side's line.
pub open spec fn sort_pairs(s: Seq<(UnitV, UnitV)>) -> Seq<(UnitV, UnitV)>
    decreases s.len(),
{
    if s.len() == 0 {
        s
    } else {
        insert_pair(sort_pairs(s.drop_last()), s.last())
    }
}

/// Unit `x` inserted into `s` (sorted by line) after every unit on a line
/// no later than its own.
pub open spec fn insert_unit(s: Seq<UnitV>, x: UnitV) -> Seq<UnitV>
    decreases s.len(),
{
    if s.len() == 0 {
        seq![x]
    } else if s.last().line <= x.line {
        s.push(x)
    } else {
        insert_unit(s.drop_last(), x).push(s.last())
    }
}

/// `s` stably sorted by line.
pub open spec fn sort_units(s: Seq<UnitV>) -> Seq<UnitV>
    decreases s.len(),
{
    if s.len() == 0 {
        s
    } else {
        insert_unit(sort_units(s.drop_last()), s.last())
    }
}

/// One node of a definition's lens: its line, depth, anchor hash and a
/// one-line preview (60 characters at most, then `…`).
#[derive(Debug, PartialEq, Eq)]
pub struct NodeEntry {
    /// 1-based start line of the node.
    pub line: u32,
    /// Nesting depth below the definition (0 for the definition itself).
    pub depth: usize,
    /// 4-hex anchor hash of the node's text.
    pub hash: String,
    /// The node's text on one line, cut to 60 characters.
    pub preview: String,
}

/// What a [`NodeEntry`] says.
pub struct EntryV {
    pub line: u32,
    pub depth: usize,
    pub hash: Seq<char>,
    pub preview: Seq<char>,
}

pub open spec fn entry_view(e: NodeEntry) -> EntryV {
    EntryV { line: e.line, depth: e.depth, hash: e.hash@, preview: e.preview@ }
}

/// The entry of node `n` of `src` at `depth`.
pub open spec fn entry_at(src: Seq<char>, n: Node, depth: usize) -> EntryV {
    EntryV {
        line: line_u32(src, n),
        depth,
        hash: anchor_hash_spec(encode_utf8(node_text(src, n))),
        preview: one_line_spec(node_text(src, n)),
    }
}

/// One level deeper (saturating).
pub open spec fn deeper(d: usize) -> usize {
    if d < usize::MAX {
        (d + 1) as usize
    } else {
        d
    }
}

/// The lens of node `n` at `depth`: the node, then in pre-order its list
/// items, its dotted tail, a reader macro's auxiliary datum and the datum it
/// applies to, each one level deeper.
pub open spec fn node_lens(src: Seq<char>, n: Node, depth: usize) -> Seq<EntryV>
    decreases n, 3int,
{
    seq![entry_at(src, n, depth)] + lens_list(src, n.items@, deeper(depth), n.items@.len() as int) + lens_opt(
        src,
        n.tail,
        deeper(depth),
    ) + lens_opt(src, n.arg, deeper(depth)) + lens_opt(src, n.inner, deeper(depth))
}

/// The lenses of `xs[..k]`, concatenated.
pub open spec fn lens_list(src: Seq<char>, xs: Seq<Node>, depth: usize, k: int) -> Seq<EntryV>
    decreases xs, k,
{
    if k <= 0 || k > xs.len() {
        Seq::empty()
    } else {
        lens_list(src, xs, depth, k - 1) + node_lens(src, xs[k - 1], depth)
    }
}

/// The lens of an optional child.
pub open spec fn lens_opt(src: Seq<char>, o: Option<Box<Node>>, depth: usize) -> Seq<EntryV>
    decreases o, 4int,
{
    match o {
        Some(x) => node_lens(src, *x, depth),
        None => Seq::empty(),
    }
}

/// A changed definition and how its form changed.
#[derive(Debug, PartialEq, Eq)]
pub struct UnitTreeDiff {
    /// The defining head symbol.
    pub kind: String,
    /// The defined name.
    pub name: String,
    /// A method's dispatch signature, or `None`.
    pub signature: Option<String>,
    /// New-version start line of the definition.
    pub line: u32,
    /// New-version anchor hash of the definition form.
    pub hash: String,
    /// How the definition's form changed.
    pub diff: FormDiff,
}

/// An added or removed definition with its lens.
#[derive(Debug, PartialEq, Eq)]
pub struct UnitLens {
    /// The defining head symbol.
    pub kind: String,
    /// The defined name.
    pub name: String,
    /// A method's dispatch signature, or `None`.
    pub signature: Option<String>,
    /// Start line of the definition (new side for added, old for removed).
    pub line: u32,
    /// Anchor hash of the definition form (same side as `line`).
    pub hash: String,
    /// The definition's lens: depth 0 is the definition itself.
    pub lens: Vec<NodeEntry>,
    /// The definition's exact source, when asked for.
    pub verbatim: Option<String>,
}

/// Changed definitions with their form diffs; added and removed ones with
/// their lenses.
#[derive(Debug, PartialEq, Eq)]
pub struct DeepDiff {
    /// Changed definitions and how they changed.
    pub changed: Vec<UnitTreeDiff>,
    /// Added definitions (new side).
    pub added: Vec<UnitLens>,
    /// Removed definitions (old side).
    pub removed: Vec<UnitLens>,
}

impl DeepDiff {
    /// Whether no definition changed, was added or was removed.
    pub fn is_empty(&self) -> (b: bool)
        ensures
            b == (self.changed@.len() == 0 && self.added@.len() == 0 && self.removed@.len() == 0),
    {
        self.changed.len() == 0 && self.added.len() == 0 && self.removed.len() == 0
    }
}

/// Whether `t` reports pair `p` (old `os`, new `ns`): the new side's kind,
/// name, signature and anchor, and the diff of the two forms.
pub open spec fn tree_is(os: Seq<char>, ns: Seq<char>, p: (UnitV, UnitV), t: UnitTreeDiff) -> bool {
    &&& t.kind@ == p.1.kind
    &&& t.name@ == p.1.name
    &&& opt_str(t.signature) == p.1.sig
    &&& t.line == p.1.line
    &&& t.hash@ == p.1.hash
    &&& form_diff_is(os, ns, p.0.form, p.1.form, t.diff)
}

/// Whether `l` reports unit `u` of `src`: its kind, name, signature and
/// anchor, its lens, and its exact text exactly when `verbose`.
pub open spec fn lens_is(src: Seq<char>, u: UnitV, verbose: bool, l: UnitLens) -> bool {
    &&& l.kind@ == u.kind
    &&& l.name@ == u.name
    &&& opt_str(l.signature) == u.sig
    &&& l.line == u.line
    &&& l.hash@ == u.hash
    &&& l.lens@.map_values(|e: NodeEntry| entry_view(e)) == node_lens(src, u.form, 0)
    &&& opt_str(l.verbatim) == if verbose {
        Some(node_text(src, u.form))
    } else {
        None
    }
}

/// Whether `r` is the deep diff of `os` (read as `fo`) and `ns` (read as
/// `fw`) under the dialect named `dn`, filtered to definitions named
/// `name` when one is given: the changed pairs whose forms differ, each
/// with its form diff, sorted by new line; the added units (new side) and
/// the removed ones (old side), each with its lens, sorted by line.
pub open spec fn deep_diff_is(
    os: Seq<char>,
    ns: Seq<char>,
    fo: Seq<Node>,
    fw: Seq<Node>,
    dn: Seq<char>,
    name: Option<Seq<char>>,
    verbose: bool,
    r: DeepDiff,
) -> bool {
    let ou = units_of(os, fo, dn);
    let nu = units_of(ns, fw, dn);
    let keys = all_keys(ou, nu);
    let parts = parts_upto(ou, nu, keys, keys.len() as int);
    let ps = changed_pairs(ou, nu);
    let ch = sort_pairs(kept_pairs(ps, name, ps.len() as int));
    let ad = sort_units(kept_units(parts.1, name, parts.1.len() as int));
    let rm = sort_units(kept_units(parts.2, name, parts.2.len() as int));
    &&& r.changed@.len() == ch.len()
    &&& forall|i: int| 0 <= i < ch.len() ==> #[trigger] tree_is(os, ns, ch[i], r.changed@[i])
    &&& r.added@.len() == ad.len()
    &&& forall|i: int| 0 <= i < ad.len() ==> #[trigger] lens_is(ns, ad[i], verbose, r.added@[i])
    &&& r.removed@.len() == rm.len()
    &&& forall|i: int| 0 <= i < rm.len() ==> #[trigger] lens_is(os, rm[i], verbose, r.removed@[i])
}


pub open spec fn evs(v: Seq<NodeEntry>) -> Seq<EntryV> {
    v.map_values(|e: NodeEntry| entry_view(e))
}

fn push_entry(out: &mut Vec<NodeEntry>, e: NodeEntry)
    ensures
        evs(final(out)@) == evs(old(out)@).push(entry_view(e)),
{
    let ghost o = evs(out@);
    let ghost ev = entry_view(e);
    out.push(e);
    assert(evs(out@) =~= o.push(ev));
}

/// Append the lens of `n` at `depth` to `out`.
#[verifier::spinoff_prover]
#[verifier::rlimit(40)]
fn lens_exec(cs: &[char], nl: &Vec<usize>, n: &Node, depth: usize, out: &mut Vec<NodeEntry>)
    requires
        line_table_of(cs@, nl@),
    ensures
        evs(final(out)@) == evs(old(out)@) + node_lens(cs@, *n, depth),
    decreases *n, 3int,
{
    let ghost o = evs(out@);
    let f = frag(cs, nl, n);
    push_entry(out, NodeEntry { line: f.line, depth, hash: f.hash, preview: f.text });
    let d = if depth < usize::MAX {
        depth + 1
    } else {
        depth
    };
    let ghost head = evs(out@);
    let mut i: usize = 0;
    while i < n.items.len()
        invariant
            line_table_of(cs@, nl@),
            d == deeper(depth),
            i <= n.items@.len(),
            evs(out@) == head + lens_list(cs@, n.items@, d, i as int),
        decreases n.items.len() - i,
    {
        lens_exec(cs, nl, &n.items[i], d, out);
        proof {
            assert(head + lens_list(cs@, n.items@, d, i + 1) =~= head + lens_list(cs@, n.items@, d, i as int)
                + node_lens(cs@, n.items@[i as int], d));
        }
        i = i + 1;
    }
    let ghost l1 = lens_list(cs@, n.items@, d, n.items@.len() as int);
    lens_opt_exec(cs, nl, &n.tail, d, out);
    lens_opt_exec(cs, nl, &n.arg, d, out);
    lens_opt_exec(cs, nl, &n.inner, d, out);
    proof {
        let e0 = entry_at(cs@, *n, depth);
        let t = lens_opt(cs@, n.tail, d);
        let a = lens_opt(cs@, n.arg, d);
        let b = lens_opt(cs@, n.inner, d);
        assert(head == o.push(e0));
        assert(evs(out@) == o.push(e0) + l1 + t + a + b);
        assert(node_lens(cs@, *n, depth) == seq![e0] + l1 + t + a + b);
        assert(o.push(e0) + l1 + t + a + b =~= o + (seq![e0] + l1 + t + a + b));
    }
}

fn lens_opt_exec(cs: &[char], nl: &Vec<usize>, c: &Option<Box<Node>>, depth: usize, out: &mut Vec<NodeEntry>)
    requires
        line_table_of(cs@, nl@),
    ensures
        evs(final(out)@) == evs(old(out)@) + lens_opt(cs@, *c, depth),
    decreases *c, 4int,
{
    match c {
        Some(x) => lens_exec(cs, nl, x, depth, out),
        None => {
            assert(evs(out@) =~= evs(out@) + Seq::<EntryV>::empty());
        },
    }
}


spec fn pvs<'a>(v: Seq<(Unit<'a>, Unit<'a>)>) -> Seq<(UnitV, UnitV)> {
    Seq::new(v.len(), |i: int| (v[i].0@, v[i].1@))
}

/// Insert pair `x` into `v`, kept sorted by the new side's line.
fn insert_pair_exec<'a>(v: &mut Vec<(Unit<'a>, Unit<'a>)>, x: (Unit<'a>, Unit<'a>)) -> (p: usize)
    ensures
        pvs(final(v)@) == insert_pair(pvs(old(v)@), (x.0@, x.1@)),
        p <= old(v)@.len(),
        pvs(final(v)@) == pvs(old(v)@).subrange(0, p as int).push((x.0@, x.1@)) + pvs(old(v)@).subrange(
            p as int,
            old(v)@.len() as int,
        ),
{
    let ghost s0 = pvs(v@);
    let ghost xv = (x.0@, x.1@);
    let mut p = v.len();
    assert(s0.subrange(0, p as int) == s0);
    while p > 0 && !(v[p - 1].1.line <= x.1.line)
        invariant
            p <= v@.len(),
            pvs(v@) == s0,
            xv == (x.0@, x.1@),
            insert_pair(s0, xv) == insert_pair(s0.subrange(0, p as int), xv) + s0.subrange(p as int, s0.len() as int),
        decreases p,
    {
        let ghost s = s0.subrange(0, p as int);
        assert(s.drop_last() == s0.subrange(0, p - 1));
        assert(s.last() == s0[p - 1]);
        assert(seq![s0[p - 1]] + s0.subrange(p as int, s0.len() as int) == s0.subrange(p - 1, s0.len() as int));
        p = p - 1;
    }
    proof {
        let s = s0.subrange(0, p as int);
        if p > 0 {
            assert(s.last() == s0[p - 1]);
        }
        assert(insert_pair(s, xv) == s.push(xv));
    }
    v.insert(p, x);
    assert(pvs(v@) =~= s0.subrange(0, p as int).push(xv) + s0.subrange(p as int, s0.len() as int));
    p
}

/// Insert unit `x` into `v`, kept sorted by line.
fn insert_unit_exec<'a>(v: &mut Vec<Unit<'a>>, x: Unit<'a>)
    ensures
        uvs(final(v)@) == insert_unit(uvs(old(v)@), x@),
{
    let ghost s0 = uvs(v@);
    let ghost xv = x@;
    let mut p = v.len();
    assert(s0.subrange(0, p as int) == s0);
    while p > 0 && !(v[p - 1].line <= x.line)
        invariant
            p <= v@.len(),
            uvs(v@) == s0,
            xv == x@,
            insert_unit(s0, xv) == insert_unit(s0.subrange(0, p as int), xv) + s0.subrange(p as int, s0.len() as int),
        decreases p,
    {
        let ghost s = s0.subrange(0, p as int);
        assert(s.drop_last() == s0.subrange(0, p - 1));
        assert(s.last() == s0[p - 1]);
        assert(seq![s0[p - 1]] + s0.subrange(p as int, s0.len() as int) == s0.subrange(p - 1, s0.len() as int));
        p = p - 1;
    }
    proof {
        let s = s0.subrange(0, p as int);
        if p > 0 {
            assert(s.last() == s0[p - 1]);
        }
        assert(insert_unit(s, xv) == s.push(xv));
    }
    v.insert(p, x);
    assert(uvs(v@) =~= s0.subrange(0, p as int).push(xv) + s0.subrange(p as int, s0.len() as int));
}

/// The name filter as text.
pub open spec fn name_view(name: Option<&str>) -> Option<Seq<char>> {
    match name {
        Some(w) => Some(w@),
        None => None,
    }
}

fn is_wanted(name: Option<&str>, u: &Unit) -> (b: bool)
    ensures
        b == wanted(name_view(name), u@),
{
    match name {
        Some(w) => {
            let a = chars_of(w);
            let b = chars_of(u.name.as_str());
            crate::text::seq_eq(a.as_slice(), b.as_slice())
        },
        None => true,
    }
}

/// The kept units of `us`, sorted by line.
fn kept_sorted<'a>(us: &Vec<Unit<'a>>, name: Option<&str>) -> (r: Vec<Unit<'a>>)
    ensures
        uvs(r@) == sort_units(kept_units(uvs(us@), name_view(name), us@.len() as int)),
{
    let ghost nv = name_view(name);
    let ghost uv = uvs(us@);
    let mut r: Vec<Unit<'a>> = Vec::new();
    let mut i: usize = 0;
    assert(uvs(r@) =~= Seq::<UnitV>::empty());
    while i < us.len()
        invariant
            uv == uvs(us@),
            nv == name_view(name),
            i <= us@.len(),
            uvs(r@) == sort_units(kept_units(uv, nv, i as int)),
        decreases us.len() - i,
    {
        if is_wanted(name, &us[i]) {
            let ghost k0 = kept_units(uv, nv, i as int);
            insert_unit_exec(&mut r, clone_unit(&us[i]));
            proof {
                let k1 = kept_units(uv, nv, i + 1);
                assert(k1 == k0.push(uv[i as int]));
                assert(k1.drop_last() == k0);
            }
        }
        i = i + 1;
    }
    r
}

/// The lens report of unit `u` of `cs`.
fn lens_of_unit(cs: &[char], nl: &Vec<usize>, u: &Unit, verbose: bool) -> (l: UnitLens)
    requires
        line_table_of(cs@, nl@),
    ensures
        lens_is(cs@, u@, verbose, l),
{
    let mut lens: Vec<NodeEntry> = Vec::new();
    assert(evs(lens@) =~= Seq::<EntryV>::empty());
    lens_exec(cs, nl, u.form, 0, &mut lens);
    assert(evs(lens@) =~= node_lens(cs@, *u.form, 0));
    let verbatim = if verbose {
        Some(crate::format::node_string(cs, u.form))
    } else {
        None
    };
    UnitLens {
        kind: u.kind.clone(),
        name: u.name.clone(),
        signature: clone_opt(&u.sig),
        line: u.line,
        hash: u.hash.clone(),
        lens,
        verbatim,
    }
}


/// Compare two versions of a source definition by definition, in depth:
/// every changed definition with how its form changed (sorted by new line),
/// and every added and removed definition with its lens (each group sorted
/// by line), all filtered to the definitions named `name` when one is
/// given. With `verbose`, added and removed definitions also carry their
/// exact source.
#[verifier::spinoff_prover]
#[verifier::rlimit(80)]
pub fn diff_files_deep(old: &str, new: &str, dialect: Dialect, name: Option<&str>, verbose: bool) -> (r: DeepDiff)
    ensures
        exists|fo: Seq<Node>, fw: Seq<Node>|
            reads_as(old@, dialect_name_spec(dialect), false, fo) && reads_as(new@, dialect_name_spec(dialect), false, fw)
                && #[trigger] deep_diff_is(old@, new@, fo, fw, dialect_name_spec(dialect), name_view(name), verbose, r),
{
    let fo = read(old, dialect, false);
    let fw = read(new, dialect, false);
    let oc = chars_of(old);
    let nc = chars_of(new);
    let onl = line_numbers(oc.as_slice());
    let nnl = line_numbers(nc.as_slice());
    let dn = dialect_name(dialect);
    let odefs = lx_definitions(old, dn);
    let ndefs = lx_definitions(new, dn);
    let (ou, _oo) = units_exec(oc.as_slice(), &onl, &odefs, fo.as_slice());
    let (nu, _no) = units_exec(nc.as_slice(), &nnl, &ndefs, fw.as_slice());
    let ghost ouv = uvs(ou@);
    let ghost nuv = uvs(nu@);
    let keys = all_keys_exec(&ou, &nu);
    let ghost kseq = kvs(keys@);
    let mut cs: Vec<Unit> = Vec::new();
    let mut co: Vec<Unit> = Vec::new();
    let mut adds: Vec<Unit> = Vec::new();
    let mut rems: Vec<Unit> = Vec::new();
    assert(uvs(cs@) =~= Seq::<UnitV>::empty());
    assert(uvs(co@) =~= Seq::<UnitV>::empty());
    assert(uvs(adds@) =~= Seq::<UnitV>::empty());
    assert(uvs(rems@) =~= Seq::<UnitV>::empty());
    let mut i: usize = 0;
    while i < keys.len()
        invariant
            ouv == uvs(ou@),
            nuv == uvs(nu@),
            kseq == kvs(keys@),
            i <= keys@.len(),
            (uvs(cs@), uvs(adds@), uvs(rems@)) == parts_upto(ouv, nuv, kseq, i as int),
            uvs(co@) == olds_upto(ouv, nuv, kseq, i as int),
            co@.len() == cs@.len(),
        decreases keys.len() - i,
    {
        let k = &keys[i];
        assert(kseq[i as int] == kv(*k));
        let olds = with_key_exec(&ou, k);
        let news = with_key_exec(&nu, k);
        let (used, om) = match_fold_exec(&olds, &news);
        let nm = free_news_exec(&news, &used);
        let c = if om.len() <= nm.len() {
            om.len()
        } else {
            nm.len()
        };
        assert(uvs(nm@).len() == nm@.len() && uvs(om@).len() == om@.len());
        push_units(&mut cs, &nm, 0, c);
        push_units(&mut co, &om, 0, c);
        assert(uvs(cs@).len() == cs@.len() && uvs(co@).len() == co@.len());
        push_units(&mut adds, &nm, c, nm.len());
        push_units(&mut rems, &om, c, om.len());
        proof {
            let nmv = uvs(nm@);
            let omv = uvs(om@);
            assert(nmv.subrange(0, c as int) == nmv.take(c as int));
            assert(omv.subrange(0, c as int) == omv.take(c as int));
            assert(nmv.subrange(c as int, nmv.len() as int) == nmv.skip(c as int));
            assert(omv.subrange(c as int, omv.len() as int) == omv.skip(c as int));
        }
        i = i + 1;
    }
    let ghost nv = name_view(name);
    let ghost ps = changed_pairs(ouv, nuv);
    assert(ps =~= Seq::new(cs@.len() as nat, |q: int| (uvs(co@)[q], uvs(cs@)[q])));
    let mut pairs: Vec<(Unit, Unit)> = Vec::new();
    let mut changed: Vec<UnitTreeDiff> = Vec::new();
    assert(pvs(pairs@) =~= Seq::<(UnitV, UnitV)>::empty());
    let mut q: usize = 0;
    while q < cs.len()
        invariant
            line_table_of(oc@, onl@),
            line_table_of(nc@, nnl@),
            oc@ == old@,
            nc@ == new@,
            co@.len() == cs@.len(),
            ps == Seq::new(cs@.len() as nat, |x: int| (uvs(co@)[x], uvs(cs@)[x])),
            nv == name_view(name),
            q <= cs@.len(),
            pvs(pairs@) == sort_pairs(kept_pairs(ps, nv, q as int)),
            changed@.len() == pairs@.len(),
            forall|x: int| 0 <= x < changed@.len() ==> #[trigger] tree_is(old@, new@, pvs(pairs@)[x], changed@[x]),
        decreases cs.len() - q,
    {
        let o = &co[q];
        let n = &cs[q];
        assert(ps[q as int] == (o@, n@));
        if is_wanted(name, n) && !struct_eq(o.form, n.form) {
            let d = diff_forms(oc.as_slice(), &onl, nc.as_slice(), &nnl, o.form, n.form);
            match d {
                Some(fd) => {
                    let t = UnitTreeDiff {
                        kind: n.kind.clone(),
                        name: n.name.clone(),
                        signature: clone_opt(&n.sig),
                        line: n.line,
                        hash: n.hash.clone(),
                        diff: fd,
                    };
                    assert(tree_is(old@, new@, (o@, n@), t));
                    let ghost before = pvs(pairs@);
                    let ghost tb = changed@;
                    let ghost k0 = kept_pairs(ps, nv, q as int);
                    let p = insert_pair_exec(&mut pairs, (clone_unit(o), clone_unit(n)));
                    changed.insert(p, t);
                    proof {
                        let k1 = kept_pairs(ps, nv, q + 1);
                        assert(k1 == k0.push(ps[q as int]));
                        assert(k1.drop_last() == k0);
                        assert(k1.last() == ps[q as int]);
                        assert(sort_pairs(k1) == insert_pair(sort_pairs(k0), ps[q as int]));
                        let after = pvs(pairs@);
                        assert(after == sort_pairs(k1));
                        assert(changed@ == tb.subrange(0, p as int).push(t) + tb.subrange(p as int, tb.len() as int));
                        assert forall|x: int| 0 <= x < changed@.len() implies #[trigger] tree_is(old@, new@, after[x], changed@[x]) by {
                            if x < p {
                                assert(after[x] == before[x]);
                                assert(changed@[x] == tb[x]);
                            } else if x == p {
                                assert(after[x] == (o@, n@));
                            } else {
                                assert(after[x] == before[x - 1]);
                                assert(changed@[x] == tb[x - 1]);
                            }
                        }
                    }
                },
                None => {
                    assert(false);
                },
            }
        } else {
            assert(kept_pairs(ps, nv, q + 1) == kept_pairs(ps, nv, q as int));
        }
        q = q + 1;
    }
    assert(cs@.len() == ps.len());
    let added_units = kept_sorted(&adds, name);
    let removed_units = kept_sorted(&rems, name);
    let mut added: Vec<UnitLens> = Vec::new();
    let mut j: usize = 0;
    while j < added_units.len()
        invariant
            line_table_of(nc@, nnl@),
            nc@ == new@,
            j <= added_units@.len(),
            added@.len() == j,
            forall|x: int| 0 <= x < j ==> #[trigger] lens_is(new@, uvs(added_units@)[x], verbose, added@[x]),
        decreases added_units.len() - j,
    {
        let l = lens_of_unit(nc.as_slice(), &nnl, &added_units[j], verbose);
        added.push(l);
        j = j + 1;
    }
    let mut removed: Vec<UnitLens> = Vec::new();
    let mut j: usize = 0;
    while j < removed_units.len()
        invariant
            line_table_of(oc@, onl@),
            oc@ == old@,
            j <= removed_units@.len(),
            removed@.len() == j,
            forall|x: int| 0 <= x < j ==> #[trigger] lens_is(old@, uvs(removed_units@)[x], verbose, removed@[x]),
        decreases removed_units.len() - j,
    {
        let l = lens_of_unit(oc.as_slice(), &onl, &removed_units[j], verbose);
        removed.push(l);
        j = j + 1;
    }
    let r = DeepDiff { changed, added, removed };
    assert(deep_diff_is(old@, new@, fo@, fw@, dn@, nv, verbose, r));
    r
}


// --- Deep diff as text ---------------------------------------------------------------------

/// A signature after a name.
pub open spec fn sig_suffix(sig: Option<Seq<char>>) -> Seq<char> {
    match sig {
        Some(s) => " "@ + s,
        None => Seq::empty(),
    }
}

/// A definition's header line: `<marker> <kind> <name>[ <sig>]  <line>:<hash>`.
pub open spec fn head_line(mk: char, kind: Seq<char>, name: Seq<char>, sig: Option<Seq<char>>, line: u32, hash: Seq<char>) -> Seq<char> {
    seq![mk] + " "@ + kind + " "@ + name + sig_suffix(sig) + "  "@ + decimal(line as nat) + ":"@ + hash + "\n"@
}

/// Lines `ls[..k]`, each indented one step.
pub open spec fn verbatim_text(ls: Seq<Seq<char>>, k: int) -> Seq<char>
    decreases k,
{
    if k <= 0 || k > ls.len() {
        Seq::empty()
    } else {
        verbatim_text(ls, k - 1) + "  "@ + ls[k - 1] + "\n"@
    }
}

/// Lens nodes `es[1..k]` (the definition itself is the header), each
/// indented by its depth.
pub open spec fn nodes_text(es: Seq<EntryV>, k: int) -> Seq<char>
    decreases k,
{
    if k <= 1 || k > es.len() {
        Seq::empty()
    } else {
        nodes_text(es, k - 1) + pad(es[k - 1].depth as int) + es[k - 1].hash + "  "@ + es[k - 1].preview + "\n"@
    }
}

/// An added (`+`) or removed (`-`) definition: its header, then its exact
/// source line by line when it carries it, else its lens below the header.
pub open spec fn lens_text(mk: char, l: UnitLens) -> Seq<char> {
    head_line(mk, l.kind@, l.name@, opt_str(l.signature), l.line, l.hash@) + match l.verbatim {
        Some(src) => verbatim_text(rust_lines(src@), rust_lines(src@).len() as int),
        None => nodes_text(evs(l.lens@), l.lens@.len() as int),
    }
}

/// A changed definition: its header, then its form diff.
pub open spec fn tree_text(t: UnitTreeDiff) -> Seq<char> {
    head_line('~', t.kind@, t.name@, opt_str(t.signature), t.line, t.hash@) + form_text(t.diff, 1)
}

pub open spec fn trees_text(ts: Seq<UnitTreeDiff>, k: int) -> Seq<char>
    decreases k,
{
    if k <= 0 || k > ts.len() {
        Seq::empty()
    } else {
        trees_text(ts, k - 1) + tree_text(ts[k - 1])
    }
}

pub open spec fn lenses_text(mk: char, ls: Seq<UnitLens>, k: int) -> Seq<char>
    decreases k,
{
    if k <= 0 || k > ls.len() {
        Seq::empty()
    } else {
        lenses_text(mk, ls, k - 1) + lens_text(mk, ls[k - 1])
    }
}

/// The text of a deep diff: the changed definitions, then the added, then
/// the removed ones.
pub open spec fn deep_text_spec(d: DeepDiff) -> Seq<char> {
    trees_text(d.changed@, d.changed@.len() as int) + lenses_text('+', d.added@, d.added@.len() as int) + lenses_text(
        '-',
        d.removed@,
        d.removed@.len() as int,
    )
}

fn push_head(out: &mut String, mk: char, kind: &String, name: &String, sig: &Option<String>, line: u32, hash: &String)
    ensures
        final(out)@ == old(out)@ + head_line(mk, kind@, name@, opt_str(*sig), line, hash@),
{
    let ghost o = out@;
    push_char(out, mk);
    out.append(" ");
    out.append(kind.as_str());
    out.append(" ");
    out.append(name.as_str());
    match sig {
        Some(x) => {
            out.append(" ");
            out.append(x.as_str());
        },
        None => {},
    }
    out.append("  ");
    out.append(decimal_string(line as usize).as_str());
    out.append(":");
    out.append(hash.as_str());
    out.append("\n");
    assert(out@ =~= o + head_line(mk, kind@, name@, opt_str(*sig), line, hash@));
}

fn push_lens_text(out: &mut String, mk: char, l: &UnitLens)
    ensures
        final(out)@ == old(out)@ + lens_text(mk, *l),
{
    let ghost o = out@;
    push_head(out, mk, &l.kind, &l.name, &l.signature, l.line, &l.hash);
    let ghost h = out@;
    match &l.verbatim {
        Some(src) => {
            let cs = chars_of(src.as_str());
            let spans = rust_line_spans(cs.as_slice());
            let ghost ls = rust_lines(src@);
            let mut k: usize = 0;
            while k < spans.len()
                invariant
                    cs@ == src@,
                    ls == rust_lines(src@),
                    spans@.len() == ls.len(),
                    forall|q: int|
                        0 <= q < spans@.len() ==> (#[trigger] spans@[q]).0 <= spans@[q].1 <= cs@.len()
                            && cs@.subrange(spans@[q].0 as int, spans@[q].1 as int) == ls[q],
                    k <= spans@.len(),
                    out@ == h + verbatim_text(ls, k as int),
                decreases spans.len() - k,
            {
                let (a, b) = spans[k];
                out.append("  ");
                let line = string_of_range(cs.as_slice(), a, b);
                out.append(line.as_str());
                out.append("\n");
                k = k + 1;
            }
        },
        None => {
            let ghost es = evs(l.lens@);
            let mut k: usize = 1;
            while k < l.lens.len()
                invariant
                    es == evs(l.lens@),
                    1 <= k,
                    k <= l.lens@.len() || l.lens@.len() == 0,
                    out@ == h + nodes_text(es, k as int),
                decreases l.lens.len() - k,
            {
                let e = &l.lens[k];
                push_pad(out, e.depth);
                out.append(e.hash.as_str());
                out.append("  ");
                out.append(e.preview.as_str());
                out.append("\n");
                proof {
                    assert(es[k as int] == entry_view(*e));
                }
                k = k + 1;
            }
            proof {
                if l.lens@.len() == 0 {
                    assert(nodes_text(es, k as int) == nodes_text(es, l.lens@.len() as int));
                }
            }
        },
    }
}

/// Render a deep diff as text: each changed definition's header and its
/// pruned tree, then each added (`+`) and removed (`-`) definition's header
/// and its lens, or its exact source when it carries it.
pub fn deep_text(diff: &DeepDiff) -> (s: String)
    ensures
        s@ == deep_text_spec(*diff),
{
    let mut out = String::new();
    let mut i: usize = 0;
    while i < diff.changed.len()
        invariant
            i <= diff.changed@.len(),
            out@ == trees_text(diff.changed@, i as int),
        decreases diff.changed.len() - i,
    {
        let t = &diff.changed[i];
        push_head(&mut out, '~', &t.kind, &t.name, &t.signature, t.line, &t.hash);
        let body = form_diff_text(&t.diff);
        out.append(body.as_str());
        i = i + 1;
    }
    let ghost c = out@;
    let mut j: usize = 0;
    while j < diff.added.len()
        invariant
            j <= diff.added@.len(),
            out@ == c + lenses_text('+', diff.added@, j as int),
        decreases diff.added.len() - j,
    {
        push_lens_text(&mut out, '+', &diff.added[j]);
        j = j + 1;
    }
    let ghost a = out@;
    let mut k: usize = 0;
    while k < diff.removed.len()
        invariant
            k <= diff.removed@.len(),
            out@ == a + lenses_text('-', diff.removed@, k as int),
        decreases diff.removed.len() - k,
    {
        push_lens_text(&mut out, '-', &diff.removed[k]);
        k = k + 1;
    }
    out
}

} // verus!
