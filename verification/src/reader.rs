//! The datum tree the rest of the library reads, built from what the
//! `lispexp` reader parses. Positions are **character** offsets into the
//! source (the reader's byte offsets are mapped once, here).

use vstd::prelude::*;

use lispexp::ErrorKind as EK;
use lispexp::TokenKind as TK;
use lispexp::DatumKind as DK;

use crate::text::{char_utf8_len, chars_of, utf8_len};

verus! {

/// The Lisp dialects the reader knows, by their kebab-case names.
#[derive(Debug, Clone, Copy, PartialEq, Eq, Structural)]
pub enum Dialect {
    Scheme,
    Guile,
    Racket,
    Gauche,
    Mosh,
    Gambit,
    SchemeSuperset,
    Clojure,
    Phel,
    Edn,
    CommonLisp,
    EmacsLisp,
    Islisp,
    AutoLisp,
    Janet,
    Hy,
    Fennel,
    Lfe,
}

/// The kebab-case name the reader uses for `d`.
pub open spec fn dialect_name_spec(d: Dialect) -> Seq<char> {
    match d {
        Dialect::Scheme => "scheme"@,
        Dialect::Guile => "guile"@,
        Dialect::Racket => "racket"@,
        Dialect::Gauche => "gauche"@,
        Dialect::Mosh => "mosh"@,
        Dialect::Gambit => "gambit"@,
        Dialect::SchemeSuperset => "scheme-superset"@,
        Dialect::Clojure => "clojure"@,
        Dialect::Phel => "phel"@,
        Dialect::Edn => "edn"@,
        Dialect::CommonLisp => "common-lisp"@,
        Dialect::EmacsLisp => "emacs-lisp"@,
        Dialect::Islisp => "islisp"@,
        Dialect::AutoLisp => "autolisp"@,
        Dialect::Janet => "janet"@,
        Dialect::Hy => "hy"@,
        Dialect::Fennel => "fennel"@,
        Dialect::Lfe => "lfe"@,
    }
}

/// The kebab-case name the reader uses for `d`.
pub fn dialect_name(d: Dialect) -> (s: &'static str)
    ensures
        s@ == dialect_name_spec(d),
{
    match d {
        Dialect::Scheme => "scheme",
        Dialect::Guile => "guile",
        Dialect::Racket => "racket",
        Dialect::Gauche => "gauche",
        Dialect::Mosh => "mosh",
        Dialect::Gambit => "gambit",
        Dialect::SchemeSuperset => "scheme-superset",
        Dialect::Clojure => "clojure",
        Dialect::Phel => "phel",
        Dialect::Edn => "edn",
        Dialect::CommonLisp => "common-lisp",
        Dialect::EmacsLisp => "emacs-lisp",
        Dialect::Islisp => "islisp",
        Dialect::AutoLisp => "autolisp",
        Dialect::Janet => "janet",
        Dialect::Hy => "hy",
        Dialect::Fennel => "fennel",
        Dialect::Lfe => "lfe",
    }
}

/// What kind of datum a node is.
#[derive(Debug, Clone, Copy, PartialEq, Eq, Structural)]
pub enum Shape {
    /// A list of any delimiter; `items`, and for `(a . b)` also `tail`/`dot`.
    List,
    Symbol,
    Keyword,
    Number,
    Str,
    Char,
    Bool,
    /// A reader macro (`'x`, `` `x ``, `,x`, `#'x`, …) over `inner`, with an
    /// auxiliary `arg` for metadata / feature conditionals.
    Prefixed,
    /// A `#tag(...)` form over an optional `inner`.
    HashLiteral,
    /// A datum label `#n=` over `inner`.
    Label,
    /// A datum label reference `#n#`.
    LabelRef,
}

/// One datum: its shape, its character span `[start, end)` in the source,
/// and its children.
#[derive(Debug)]
pub struct Node {
    pub shape: Shape,
    pub start: usize,
    pub end: usize,
    /// The elements of a list (empty otherwise).
    pub items: Vec<Node>,
    /// The dotted tail of an improper list.
    pub tail: Option<Box<Node>>,
    /// The offset of the `.` of an improper list.
    pub dot: Option<usize>,
    /// The datum a reader macro, `#tag` form or label applies to.
    pub inner: Option<Box<Node>>,
    /// The auxiliary datum of a reader macro (metadata, feature test).
    pub arg: Option<Box<Node>>,
    /// What sets the datum apart beside its shape and children: the verbatim
    /// text of a symbol, keyword, number, string or character; `true` or
    /// `false`; a list's delimiter (`Round`, `Square`, `Curly`, `Set`); a
    /// reader macro's role (`Quote`, `Discard`, …); a `#tag` form's tag; a
    /// label's id.
    pub key: String,
    /// Whether a reader macro is written longhand (`(quote x)`, not `'x`).
    pub longhand: bool,
}

// --- The outside reader -------------------------------------------------------

#[verifier::external_type_specification]
#[verifier::external_body]
pub struct ExDatum<'a>(lispexp::Datum<'a>);

/// The data `lispexp::parse` reads from `source` under the preset for the
/// dialect named `dialect` (the Scheme superset for an unknown name), with
/// `keep_discarded` set as given: each top-level datum as a [`Node`] whose
/// positions are **byte** offsets, its children converted alike.
pub uninterp spec fn datum_tree(source: Seq<char>, dialect: Seq<char>, keep_discarded: bool) -> Seq<Node>;

/// `lispexp::parse` of `source` under the preset for the dialect named
/// `dialect` (with `keep_discarded` set as given); `lispexp::walk` visits
/// each top-level datum in order (skipping its children), and the verified
/// [`push_converted`] converts it field for field. The contract names the
/// result ([`datum_tree`]); the reader's grammar is lispexp's.
#[verifier::external_body]
fn lx_parse(source: &str, dialect: &str, keep_discarded: bool) -> (r: Vec<Node>)
    ensures
        r@ == datum_tree(source@, dialect@, keep_discarded),
{
    let mut options = lispexp::Options::for_dialect(dialect.parse().unwrap_or(lispexp::Dialect::SchemeSuperset));
    options.keep_discarded = keep_discarded;
    let parsed = lispexp::parse(source, &options);
    let mut out = Vec::new();
    lispexp::walk(&parsed.data, |d, _| {
        push_converted(&mut out, d);
        lispexp::Walk::Skip
    });
    out
}

/// Append datum `d`, converted field for field, to `out`.
fn push_converted(out: &mut Vec<Node>, d: &lispexp::Datum)
    ensures
        final(out)@.len() == old(out)@.len() + 1,
        final(out)@.take(old(out)@.len() as int) == old(out)@,
{
    let n = convert(d, usize::MAX);
    out.push(n);
    assert(out@.take(out@.len() - 1) =~= old(out)@);
}

/// Which `lispexp::DatumKind` variant `d` is.
#[verifier::external_body]
fn lx_shape(d: &lispexp::Datum) -> Shape {
    match &d.kind {
        lispexp::DatumKind::List { .. } => Shape::List,
        lispexp::DatumKind::Symbol(_) => Shape::Symbol,
        lispexp::DatumKind::Keyword(_) => Shape::Keyword,
        lispexp::DatumKind::Number(_) => Shape::Number,
        lispexp::DatumKind::Str(_) => Shape::Str,
        lispexp::DatumKind::Char(_) => Shape::Char,
        lispexp::DatumKind::Bool(_) => Shape::Bool,
        lispexp::DatumKind::Prefixed { .. } => Shape::Prefixed,
        lispexp::DatumKind::HashLiteral { .. } => Shape::HashLiteral,
        lispexp::DatumKind::Label { .. } => Shape::Label,
        lispexp::DatumKind::LabelRef { .. } => Shape::LabelRef,
    }
}

/// The distinguishing text of `d` (see [`Node::key`]): the slice a leaf
/// holds, a boolean's value, or the `Debug` name of a list's `Delim` or a
/// reader macro's `Prefix`, or a `#tag` form's tag, or a label's id.
#[verifier::external_body]
fn lx_key(d: &lispexp::Datum) -> String {
    match &d.kind {
        DK::List { delim, .. } => format!("{delim:?}"),
        DK::Symbol(s) | DK::Keyword(s) | DK::Number(s) | DK::Str(s) | DK::Char(s) => s.to_string(),
        DK::Bool(b) => b.to_string(),
        DK::Prefixed { prefix, .. } => format!("{prefix:?}"),
        DK::HashLiteral { tag, .. } => tag.to_string(),
        DK::Label { id, .. } | DK::LabelRef { id } => id.to_string(),
    }
}

/// Whether `d` is a reader macro written longhand (`Notation::Longhand`).
#[verifier::external_body]
fn lx_longhand(d: &lispexp::Datum) -> bool {
    matches!(&d.kind, lispexp::DatumKind::Prefixed { notation: lispexp::Notation::Longhand, .. })
}

/// The byte span (`span.start`, `span.end`) of `d`.
#[verifier::external_body]
fn lx_span(d: &lispexp::Datum) -> (u32, u32) {
    (d.span.start, d.span.end)
}

/// `Datum::items`: a list's elements, empty for any other datum.
#[verifier::external_body]
fn lx_items<'a, 't>(d: &'a lispexp::Datum<'t>) -> &'a [lispexp::Datum<'t>] {
    d.items().unwrap_or_default()
}

/// A list's dotted tail.
#[verifier::external_body]
fn lx_tail<'a, 't>(d: &'a lispexp::Datum<'t>) -> Option<&'a lispexp::Datum<'t>> {
    match &d.kind {
        lispexp::DatumKind::List { tail, .. } => tail.as_deref(),
        _ => None,
    }
}

/// `Datum::dot_span` start: the byte offset of an improper list's `.`.
#[verifier::external_body]
fn lx_dot(d: &lispexp::Datum) -> Option<u32> {
    d.dot_span().map(|s| s.start)
}

/// The datum a `Prefixed`, `HashLiteral` or `Label` applies to.
#[verifier::external_body]
fn lx_inner<'a, 't>(d: &'a lispexp::Datum<'t>) -> Option<&'a lispexp::Datum<'t>> {
    match &d.kind {
        lispexp::DatumKind::Prefixed { inner, .. } => Some(inner),
        lispexp::DatumKind::HashLiteral { inner, .. } => inner.as_deref(),
        lispexp::DatumKind::Label { inner, .. } => Some(inner),
        _ => None,
    }
}

/// The auxiliary datum (`arg`) of a `Prefixed`.
#[verifier::external_body]
fn lx_arg<'a, 't>(d: &'a lispexp::Datum<'t>) -> Option<&'a lispexp::Datum<'t>> {
    match &d.kind {
        lispexp::DatumKind::Prefixed { arg, .. } => arg.as_deref(),
        _ => None,
    }
}

// --- Conversion ---------------------------------------------------------------

/// For the characters `cs[0..i]`, the index of the character each byte of
/// their UTF-8 encoding belongs to.
pub open spec fn char_map_prefix(cs: Seq<char>, i: int) -> Seq<usize>
    decreases i,
{
    if i <= 0 || i > cs.len() {
        Seq::empty()
    } else {
        char_map_prefix(cs, i - 1) + Seq::new(utf8_len(cs[i - 1]), |k: int| (i - 1) as usize)
    }
}

/// The index of the character holding each byte of the UTF-8 encoding of
/// `cs`, followed by `cs.len()` for the end offset.
pub open spec fn byte_char_map(cs: Seq<char>) -> Seq<usize> {
    char_map_prefix(cs, cs.len() as int).push(cs.len() as usize)
}

pub proof fn lemma_char_map_prefix_bound(cs: Seq<char>, i: int)
    requires
        0 <= i <= cs.len(),
    ensures
        forall|k: int| 0 <= k < char_map_prefix(cs, i).len() ==> char_map_prefix(cs, i)[k] < i,
    decreases i,
{
    if i > 0 {
        lemma_char_map_prefix_bound(cs, i - 1);
        let p = char_map_prefix(cs, i - 1);
        let q = Seq::new(utf8_len(cs[i - 1]), |k: int| (i - 1) as usize);
        assert(char_map_prefix(cs, i) == p + q);
        assert forall|k: int| 0 <= k < char_map_prefix(cs, i).len() implies char_map_prefix(cs, i)[k] < i by {
            if k >= p.len() {
                assert(char_map_prefix(cs, i)[k] == q[k - p.len()]);
            }
        }
    }
}

/// The number of characters of `cs` whose first byte lies before byte `b`.
pub open spec fn chars_before(cs: Seq<char>, b: int) -> int {
    let m = byte_char_map(cs);
    if b <= 0 {
        0
    } else if b >= m.len() - 1 {
        cs.len() as int
    } else if (m[b] as int) < cs.len() && m[b - 1] == m[b] {
        m[b] + 1
    } else {
        m[b] as int
    }
}

/// The number of characters of `cs` whose first byte lies before byte `b`,
/// from its byte map.
pub fn chars_before_exec(cs: &[char], map: &Vec<usize>, b: usize) -> (n: usize)
    requires
        map@ == byte_char_map(cs@),
    ensures
        n == chars_before(cs@, b as int),
        n <= cs@.len(),
{
    proof {
        lemma_char_map_prefix_bound(cs@, cs@.len() as int);
    }
    if b == 0 {
        0
    } else if b >= map.len() - 1 {
        cs.len()
    } else if map[b] < cs.len() && map[b - 1] == map[b] {
        map[b] + 1
    } else {
        map[b]
    }
}

/// `map[b]` is the index of the character holding byte `b` of the UTF-8
/// encoding of `cs`; `map[total]` is `cs.len()`.
pub fn byte_to_char_map(cs: &[char]) -> (map: Vec<usize>)
    ensures
        map@ == byte_char_map(cs@),
        map@.len() >= 1,
        forall|k: int| 0 <= k < map@.len() ==> map@[k] <= cs@.len(),
{
    let mut map: Vec<usize> = Vec::new();
    let mut i: usize = 0;
    while i < cs.len()
        invariant
            i <= cs@.len(),
            map@ == char_map_prefix(cs@, i as int),
        decreases cs.len() - i,
    {
        let w = char_utf8_len(cs[i]);
        let ghost before = map@;
        let mut k: usize = 0;
        while k < w
            invariant
                i < cs@.len(),
                w == utf8_len(cs@[i as int]),
                k <= w,
                map@ == before + Seq::new(k as nat, |q: int| i),
            decreases w - k,
        {
            map.push(i);
            assert(map@ == before + Seq::new((k + 1) as nat, |q: int| i));
            k = k + 1;
        }
        assert(map@ == char_map_prefix(cs@, i + 1));
        i = i + 1;
    }
    proof {
        lemma_char_map_prefix_bound(cs@, cs@.len() as int);
    }
    map.push(cs.len());
    map
}

pub fn map_offset(map: &Vec<usize>, b: u32) -> (c: usize)
    requires
        map@.len() >= 1,
    ensures
        c == (if (b as int) < map@.len() {
            map@[b as int]
        } else {
            map@[map@.len() - 1]
        }),
{
    let b = b as usize;
    if b < map.len() {
        map[b]
    } else {
        map[map.len() - 1]
    }
}

/// Whether every position in the tree of `n` (its span, its dot, and those
/// of all its children) is an offset `0..=len`.
pub open spec fn within(n: Node, len: int) -> bool
    decreases n, 3int,
{
    &&& n.start <= len
    &&& n.end <= len
    &&& match n.dot {
        Some(d) => d <= len,
        None => true,
    }
    &&& items_within(n.items@, len, n.items@.len() as int)
    &&& opt_within(n.tail, len)
    &&& opt_within(n.inner, len)
    &&& opt_within(n.arg, len)
}

/// Whether the first `k` of `xs` are [`within`] `len`.
pub open spec fn items_within(xs: Seq<Node>, len: int, k: int) -> bool
    decreases xs, k,
{
    if k <= 0 || k > xs.len() {
        true
    } else {
        items_within(xs, len, k - 1) && within(xs[k - 1], len)
    }
}

/// [`within`] of an optional child (an absent one is).
pub open spec fn opt_within(o: Option<Box<Node>>, len: int) -> bool
    decreases o, 4int,
{
    match o {
        Some(x) => within(*x, len),
        None => true,
    }
}

proof fn lemma_items_within_push(xs: Seq<Node>, x: Node, len: int, k: int)
    requires
        0 <= k <= xs.len(),
    ensures
        items_within(xs.push(x), len, k) == items_within(xs, len, k),
    decreases k,
{
    if k > 0 {
        lemma_items_within_push(xs, x, len, k - 1);
        assert(xs.push(x)[k - 1] == xs[k - 1]);
    }
}

/// Whether every offset `map` holds is at most its last one.
pub open spec fn map_bounded(map: Seq<usize>) -> bool {
    &&& map.len() >= 1
    &&& forall|k: int| 0 <= k < map.len() ==> #[trigger] map[k] <= map[map.len() - 1]
}

/// A datum with no children.
fn leaf(shape: Shape, key: String, longhand: bool, start: usize, end: usize) -> (n: Node)
    ensures
        n.shape == shape,
        n.key == key,
        n.longhand == longhand,
        n.start == start,
        n.end == end,
        n.items@.len() == 0,
        n.tail is None,
        n.dot is None,
        n.inner is None,
        n.arg is None,
{
    Node {
        shape,
        key,
        longhand,
        start,
        end,
        items: Vec::new(),
        tail: None,
        dot: None,
        inner: None,
        arg: None,
    }
}

fn convert_opt(d: Option<&lispexp::Datum>, fuel: usize) -> (r: Option<Box<Node>>)
    ensures
        r is Some <==> d is Some,
    decreases fuel, 3nat,
{
    match d {
        Some(x) => Some(Box::new(convert(x, fuel))),
        None => None,
    }
}

/// Convert one datum field for field, keeping its byte offsets (and, while
/// `fuel` lasts, its children; a datum nests no deeper than its source is
/// long, so the reader's `usize::MAX` never runs out).
fn convert(d: &lispexp::Datum, fuel: usize) -> (n: Node)
    ensures
        fuel == 0 ==> n.items@.len() == 0 && n.tail is None && n.dot is None && n.inner is None && n.arg is None,
    decreases fuel, 2nat,
{
    let (bs, be) = lx_span(d);
    let shape = lx_shape(d);
    let key = lx_key(d);
    let longhand = lx_longhand(d);
    if fuel == 0 {
        return leaf(shape, key, longhand, bs as usize, be as usize);
    }
    let mut node = leaf(shape, key, longhand, bs as usize, be as usize);
    let items = lx_items(d);
    let mut i: usize = 0;
    while i < items.len()
        invariant
            fuel > 0,
        decreases items.len() - i,
    {
        node.items.push(convert(&items[i], fuel - 1));
        i = i + 1;
    }
    node.tail = convert_opt(lx_tail(d), fuel - 1);
    node.dot = match lx_dot(d) {
        Some(b) => Some(b as usize),
        None => None,
    };
    node.inner = convert_opt(lx_inner(d), fuel - 1);
    node.arg = convert_opt(lx_arg(d), fuel - 1);
    node
}

/// The character offset of byte offset `b`, by the byte map `map` (its last
/// entry past the end).
pub open spec fn moff(map: Seq<usize>, b: int) -> usize {
    if 0 <= b < map.len() {
        map[b]
    } else {
        map[map.len() - 1]
    }
}

/// Whether `n` is `raw` with every byte offset turned into a character
/// offset by `map`, children alike.
pub open spec fn charred(raw: Node, n: Node, map: Seq<usize>) -> bool
    decreases raw, 3int,
{
    &&& n.shape == raw.shape
    &&& n.key == raw.key
    &&& n.longhand == raw.longhand
    &&& n.start == moff(map, raw.start as int)
    &&& n.end == moff(map, raw.end as int)
    &&& n.dot == match raw.dot {
        Some(d) => Some(moff(map, d as int)),
        None => None::<usize>,
    }
    &&& n.items@.len() == raw.items@.len()
    &&& items_charred(raw.items@, n.items@, map, raw.items@.len() as int)
    &&& opt_charred(raw.tail, n.tail, map)
    &&& opt_charred(raw.inner, n.inner, map)
    &&& opt_charred(raw.arg, n.arg, map)
}

/// [`charred`] for the first `k` of `xs` and `ys`.
pub open spec fn items_charred(xs: Seq<Node>, ys: Seq<Node>, map: Seq<usize>, k: int) -> bool
    decreases xs, k,
{
    if k <= 0 || k > xs.len() {
        true
    } else {
        items_charred(xs, ys, map, k - 1) && charred(xs[k - 1], ys[k - 1], map)
    }
}

/// [`charred`] of optional children: both absent, or both present.
pub open spec fn opt_charred(a: Option<Box<Node>>, b: Option<Box<Node>>, map: Seq<usize>) -> bool
    decreases a, 4int,
{
    match (a, b) {
        (None, None) => true,
        (Some(x), Some(y)) => charred(*x, *y, map),
        _ => false,
    }
}

/// Whether `forms` are the data the reader reads from `source` under the
/// dialect named `dialect` ([`datum_tree`]), with character offsets: one
/// form per datum, and every field of every node (shape, key, offsets,
/// children) fixed by the datum's.
#[verifier::opaque]
pub open spec fn reads_as(source: Seq<char>, dialect: Seq<char>, keep_discarded: bool, forms: Seq<Node>) -> bool {
    let raw = datum_tree(source, dialect, keep_discarded);
    &&& forms.len() == raw.len()
    &&& forall|i: int| 0 <= i < raw.len() ==> charred(raw[i], #[trigger] forms[i], byte_char_map(source))
}

proof fn lemma_items_charred_push(xs: Seq<Node>, ys: Seq<Node>, y: Node, map: Seq<usize>, k: int)
    requires
        0 <= k <= ys.len(),
    ensures
        items_charred(xs, ys.push(y), map, k) == items_charred(xs, ys, map, k),
    decreases k,
{
    if k > 0 {
        lemma_items_charred_push(xs, ys, y, map, k - 1);
        assert(ys.push(y)[k - 1] == ys[k - 1]);
    }
}

fn moff_exec(map: &Vec<usize>, b: usize) -> (c: usize)
    requires
        map@.len() >= 1,
    ensures
        c == moff(map@, b as int),
{
    if b < map.len() {
        map[b]
    } else {
        map[map.len() - 1]
    }
}

fn relocate_opt(o: &Option<Box<Node>>, map: &Vec<usize>) -> (r: Option<Box<Node>>)
    requires
        map_bounded(map@),
    ensures
        opt_charred(*o, r, map@),
        opt_within(r, map@[map@.len() - 1] as int),
    decreases *o, 4int,
{
    match o {
        Some(x) => Some(Box::new(relocate(x, map))),
        None => None,
    }
}

/// `raw` with its byte offsets turned into character offsets by `map`.
fn relocate(raw: &Node, map: &Vec<usize>) -> (n: Node)
    requires
        map_bounded(map@),
    ensures
        charred(*raw, n, map@),
        within(n, map@[map@.len() - 1] as int),
    decreases *raw, 3int,
{
    let ghost top = map@[map@.len() - 1] as int;
    let mut node = leaf(raw.shape, raw.key.clone(), raw.longhand, moff_exec(map, raw.start), moff_exec(map, raw.end));
    let mut i: usize = 0;
    while i < raw.items.len()
        invariant
            map_bounded(map@),
            top == map@[map@.len() - 1] as int,
            i <= raw.items@.len(),
            node.items@.len() == i,
            node.shape == raw.shape,
            node.key == raw.key,
            node.longhand == raw.longhand,
            node.start == moff(map@, raw.start as int),
            node.end == moff(map@, raw.end as int),
            node.start <= top,
            node.end <= top,
            items_within(node.items@, top, i as int),
            items_charred(raw.items@, node.items@, map@, i as int),
        decreases raw.items.len() - i,
    {
        let c = relocate(&raw.items[i], map);
        let ghost before = node.items@;
        node.items.push(c);
        proof {
            lemma_items_within_push(before, c, top, before.len() as int);
            lemma_items_charred_push(raw.items@, before, c, map@, i as int);
        }
        i = i + 1;
    }
    node.tail = relocate_opt(&raw.tail, map);
    node.dot = match raw.dot {
        Some(b) => Some(moff_exec(map, b)),
        None => None,
    };
    node.inner = relocate_opt(&raw.inner, map);
    node.arg = relocate_opt(&raw.arg, map);
    node
}

/// Read `source` as `dialect` with the `lispexp` reader, returning its
/// top-level data with character offsets: exactly the data [`datum_tree`]
/// names, every byte offset turned into the offset of the character it
/// falls in. `keep_discarded` keeps `#_`/`#;` discarded forms in the tree.
/// Every position in the result is at most the source's length.
pub fn read(source: &str, dialect: Dialect, keep_discarded: bool) -> (forms: Vec<Node>)
    ensures
        reads_as(source@, dialect_name_spec(dialect), keep_discarded, forms@),
        forall|k: int| 0 <= k < forms@.len() ==> within(#[trigger] forms@[k], source@.len() as int),
{
    let cs = chars_of(source);
    let map = byte_to_char_map(cs.as_slice());
    let raw = lx_parse(source, dialect_name(dialect), keep_discarded);
    proof {
        lemma_char_map_prefix_bound(cs@, cs@.len() as int);
    }
    assert(map@[map@.len() - 1] == cs@.len()) by {
        let p = char_map_prefix(cs@, cs@.len() as int);
        assert(cs@.len() == cs.len());
        assert(map@ == p.push(cs@.len() as usize));
        assert(map@.len() - 1 == p.len());
    }
    let ghost rv = datum_tree(source@, dialect_name_spec(dialect), keep_discarded);
    let mut forms: Vec<Node> = Vec::new();
    let mut i: usize = 0;
    while i < raw.len()
        invariant
            map_bounded(map@),
            map@ == byte_char_map(source@),
            map@[map@.len() - 1] == source@.len(),
            raw@ == rv,
            i <= raw@.len(),
            forms@.len() == i,
            forall|k: int| 0 <= k < forms@.len() ==> within(#[trigger] forms@[k], source@.len() as int),
            forall|k: int| 0 <= k < forms@.len() ==> charred(rv[k], #[trigger] forms@[k], map@),
        decreases raw.len() - i,
    {
        let n = relocate(&raw[i], &map);
        forms.push(n);
        i = i + 1;
    }
    assert(reads_as(source@, dialect_name_spec(dialect), keep_discarded, forms@)) by {
        reveal(reads_as);
    }
    forms
}

// --- The outside lexer and the parser's diagnostics ------------------------------

/// The class of a lexeme, as far as the library tells lexemes apart.
#[derive(Debug, Clone, Copy, PartialEq, Eq, Structural)]
pub enum LexKind {
    /// An opening delimiter `(`, `[`, `{`.
    Open,
    /// A `#`-led opening such as `#(` or `#{`; its last character is the
    /// delimiter.
    HashOpen,
    /// A closing delimiter.
    Close,
    LineComment,
    BlockComment,
    /// A string literal, quotes included.
    Str,
    /// A character literal such as `#\a`.
    Char,
    /// A boolean literal `#t` / `#f`.
    Bool,
    /// A symbol or number.
    Atom,
    /// A lexeme that ran to end-of-input while still open.
    Unterminated,
    /// Whitespace, prefixes, tags, labels and the rest.
    Other,
}

/// One lexeme: its class and its byte range `[start, end)`.
#[derive(Debug, Clone, Copy, PartialEq, Eq, Structural)]
pub struct LexTok {
    pub kind: LexKind,
    pub start: u32,
    pub end: u32,
}

/// What `lispexp::lex` yields for `source` under the preset for the dialect
/// named `dialect`: each lexeme's class and byte span, in order.
pub uninterp spec fn lexed(source: Seq<char>, dialect: Seq<char>) -> Seq<LexTok>;

/// `lispexp::lex` of `source` under the preset for the dialect named
/// `dialect` (the Scheme superset for an unknown name). The contract names
/// the lexemes; nothing is claimed of them beyond that they are `lexed`'s.
#[verifier::external_body]
pub(crate) fn lx_lex(source: &str, dialect: &str) -> (r: Vec<LexTok>)
    ensures
        r@ == lexed(source@, dialect@),
{
    let opts = lispexp::Options::for_dialect(dialect.parse().unwrap_or(lispexp::Dialect::SchemeSuperset));
    let mut v: Vec<LexTok> = Vec::new();
    for t in lispexp::lex(source, &opts) {
        let kind = match t.kind {
            TK::Open(_) => LexKind::Open, TK::HashOpen(_) => LexKind::HashOpen, TK::Close(_) => LexKind::Close,
            TK::LineComment => LexKind::LineComment, TK::BlockComment => LexKind::BlockComment,
            TK::Str => LexKind::Str, TK::Char => LexKind::Char, TK::Bool(_) => LexKind::Bool,
            TK::Atom => LexKind::Atom, TK::Unterminated(_) => LexKind::Unterminated, _ => LexKind::Other,
        };
        v.push(LexTok { kind, start: t.span.start, end: t.span.end });
    }
    v
}

/// The kinds of parse diagnostic the library tells apart.
#[derive(Debug, Clone, Copy, PartialEq, Eq, Structural)]
pub enum FaultKind {
    UnclosedList,
    UnexpectedDelimiter,
    MismatchedDelimiter,
    MalformedToken,
    DanglingPrefix,
    DanglingTag,
    DanglingLabel,
    DanglingDot,
    ItemAfterDottedTail,
    DepthLimitExceeded,
    Other,
}

/// The first diagnostic `lispexp::parse` reports for `source` under the
/// preset for the dialect named `dialect`: its kind, its message (the kind's
/// display) and the byte offset it starts at; `None` when it reports none.
pub uninterp spec fn first_fault(source: Seq<char>, dialect: Seq<char>) -> Option<(FaultKind, Seq<char>, u32)>;

/// `lispexp::parse` of `source` under the preset for `dialect`, reduced to
/// its first diagnostic. The contract names that diagnostic.
#[verifier::external_body]
pub(crate) fn lx_first_fault(source: &str, dialect: &str) -> (r: Option<(FaultKind, String, u32)>)
    ensures
        match r {
            Some((k, m, s)) => first_fault(source@, dialect@) == Some((k, m@, s)),
            None => first_fault(source@, dialect@) is None,
        },
{
    let opts = lispexp::Options::for_dialect(dialect.parse().unwrap_or(lispexp::Dialect::SchemeSuperset));
    let e = lispexp::parse(source, &opts).errors.into_iter().next()?;
    let kind = match &e.kind {
        EK::UnclosedList { .. } => FaultKind::UnclosedList, EK::UnexpectedDelimiter { .. } => FaultKind::UnexpectedDelimiter,
        EK::MismatchedDelimiter { .. } => FaultKind::MismatchedDelimiter, EK::MalformedToken { .. } => FaultKind::MalformedToken,
        EK::DanglingPrefix { .. } => FaultKind::DanglingPrefix, EK::DanglingTag => FaultKind::DanglingTag,
        EK::DanglingLabel => FaultKind::DanglingLabel, EK::DanglingDot => FaultKind::DanglingDot,
        EK::ItemAfterDottedTail => FaultKind::ItemAfterDottedTail, EK::DepthLimitExceeded => FaultKind::DepthLimitExceeded,
        _ => FaultKind::Other,
    };
    Some((kind, e.kind.to_string(), e.span.start))
}

} // verus!
