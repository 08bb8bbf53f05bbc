//! Structural equality of data: equality **modulo formatting**. Two forms are
//! equal when they have the same shape and distinguishing text (see
//! [`Node::key`]), the same notation, and equal children, whatever their
//! spans: whitespace and comments do not matter, and leaf text is compared
//! literally (no sugar, number or case normalization).

use vstd::prelude::*;

use crate::reader::Node;
use crate::text::{chars_of, seq_eq};

verus! {

/// Structural equality of `a` and `b`.
pub open spec fn struct_eq_spec(a: Node, b: Node) -> bool
    decreases a, 3int,
{
    &&& a.shape == b.shape
    &&& a.key@ == b.key@
    &&& a.longhand == b.longhand
    &&& a.items@.len() == b.items@.len()
    &&& items_eq(a.items@, b.items@, a.items@.len() as int)
    &&& opt_eq_spec(a.tail, b.tail)
    &&& opt_eq_spec(a.inner, b.inner)
    &&& opt_eq_spec(a.arg, b.arg)
}

/// Whether the first `k` elements of `xs` and `ys` are pairwise
/// structurally equal.
pub open spec fn items_eq(xs: Seq<Node>, ys: Seq<Node>, k: int) -> bool
    decreases xs, k,
{
    if k <= 0 || k > xs.len() {
        true
    } else {
        items_eq(xs, ys, k - 1) && struct_eq_spec(xs[k - 1], ys[k - 1])
    }
}

/// [`struct_eq_spec`] lifted over optional children: both absent is equal,
/// both present compares structurally, a presence mismatch is unequal.
pub open spec fn opt_eq_spec(a: Option<Box<Node>>, b: Option<Box<Node>>) -> bool
    decreases a, 4int,
{
    match (a, b) {
        (None, None) => true,
        (Some(x), Some(y)) => struct_eq_spec(*x, *y),
        _ => false,
    }
}

fn same_string(a: &String, b: &String) -> (r: bool)
    ensures
        r == (a@ == b@),
{
    let x = chars_of(a.as_str());
    let y = chars_of(b.as_str());
    seq_eq(x.as_slice(), y.as_slice())
}

/// Structural equality modulo formatting: same shape, distinguishing text
/// and notation, and recursively equal children; spans are ignored.
pub fn struct_eq(a: &Node, b: &Node) -> (r: bool)
    ensures
        r == struct_eq_spec(*a, *b),
    decreases *a, 3int,
{
    let same_shape = match (a.shape, b.shape) {
        (x, y) => x == y,
    };
    if !same_shape || !same_string(&a.key, &b.key) || a.longhand != b.longhand || a.items.len()
        != b.items.len() {
        return false;
    }
    if !items_eq_exec(a.items.as_slice(), b.items.as_slice()) {
        return false;
    }
    opt_eq(&a.tail, &b.tail) && opt_eq(&a.inner, &b.inner) && opt_eq(&a.arg, &b.arg)
}

fn items_eq_exec(xs: &[Node], ys: &[Node]) -> (r: bool)
    requires
        xs@.len() == ys@.len(),
    ensures
        r == items_eq(xs@, ys@, xs@.len() as int),
    decreases xs@, 0int,
{
    let mut k: usize = 0;
    while k < xs.len()
        invariant
            xs@.len() == ys@.len(),
            k <= xs@.len(),
            items_eq(xs@, ys@, k as int),
        decreases xs.len() - k,
    {
        if !struct_eq(&xs[k], &ys[k]) {
            proof {
                lemma_items_eq_prefix(xs@, ys@, k + 1, xs@.len() as int);
            }
            return false;
        }
        k = k + 1;
    }
    true
}

/// [`struct_eq`] lifted over optional children.
pub fn opt_eq(a: &Option<Box<Node>>, b: &Option<Box<Node>>) -> (r: bool)
    ensures
        r == opt_eq_spec(*a, *b),
    decreases *a, 4int,
{
    match (a, b) {
        (None, None) => true,
        (Some(x), Some(y)) => struct_eq(x, y),
        _ => false,
    }
}

proof fn lemma_items_eq_prefix(xs: Seq<Node>, ys: Seq<Node>, j: int, k: int)
    requires
        0 <= j <= k <= xs.len(),
    ensures
        items_eq(xs, ys, k) ==> items_eq(xs, ys, j),
    decreases k - j,
{
    if j < k {
        lemma_items_eq_prefix(xs, ys, j, k - 1);
    }
}

proof fn lemma_refl(a: Node)
    ensures
        struct_eq_spec(a, a),
    decreases a, 3int,
{
    lemma_refl_items(a.items@, a.items@.len() as int);
    lemma_refl_opt(a.tail);
    lemma_refl_opt(a.inner);
    lemma_refl_opt(a.arg);
}

proof fn lemma_refl_items(xs: Seq<Node>, k: int)
    ensures
        items_eq(xs, xs, k),
    decreases xs, k,
{
    if 0 < k <= xs.len() {
        lemma_refl_items(xs, k - 1);
        lemma_refl(xs[k - 1]);
    }
}

proof fn lemma_refl_opt(a: Option<Box<Node>>)
    ensures
        opt_eq_spec(a, a),
    decreases a, 4int,
{
    match a {
        Some(x) => lemma_refl(*x),
        None => {},
    }
}

proof fn lemma_sym(a: Node, b: Node)
    requires
        struct_eq_spec(a, b),
    ensures
        struct_eq_spec(b, a),
    decreases a, 3int,
{
    lemma_sym_items(a.items@, b.items@, a.items@.len() as int);
    lemma_sym_opt(a.tail, b.tail);
    lemma_sym_opt(a.inner, b.inner);
    lemma_sym_opt(a.arg, b.arg);
}

proof fn lemma_sym_items(xs: Seq<Node>, ys: Seq<Node>, k: int)
    requires
        xs.len() == ys.len(),
        items_eq(xs, ys, k),
    ensures
        items_eq(ys, xs, k),
    decreases xs, k,
{
    if 0 < k <= xs.len() {
        lemma_sym_items(xs, ys, k - 1);
        lemma_sym(xs[k - 1], ys[k - 1]);
    }
}

proof fn lemma_sym_opt(a: Option<Box<Node>>, b: Option<Box<Node>>)
    requires
        opt_eq_spec(a, b),
    ensures
        opt_eq_spec(b, a),
    decreases a, 4int,
{
    match (a, b) {
        (Some(x), Some(y)) => lemma_sym(*x, *y),
        _ => {},
    }
}

proof fn lemma_trans(a: Node, b: Node, c: Node)
    requires
        struct_eq_spec(a, b),
        struct_eq_spec(b, c),
    ensures
        struct_eq_spec(a, c),
    decreases a, 3int,
{
    lemma_trans_items(a.items@, b.items@, c.items@, a.items@.len() as int);
    lemma_trans_opt(a.tail, b.tail, c.tail);
    lemma_trans_opt(a.inner, b.inner, c.inner);
    lemma_trans_opt(a.arg, b.arg, c.arg);
}

proof fn lemma_trans_items(xs: Seq<Node>, ys: Seq<Node>, zs: Seq<Node>, k: int)
    requires
        xs.len() == ys.len() == zs.len(),
        items_eq(xs, ys, k),
        items_eq(ys, zs, k),
    ensures
        items_eq(xs, zs, k),
    decreases xs, k,
{
    if 0 < k <= xs.len() {
        lemma_trans_items(xs, ys, zs, k - 1);
        lemma_trans(xs[k - 1], ys[k - 1], zs[k - 1]);
    }
}

proof fn lemma_trans_opt(a: Option<Box<Node>>, b: Option<Box<Node>>, c: Option<Box<Node>>)
    requires
        opt_eq_spec(a, b),
        opt_eq_spec(b, c),
    ensures
        opt_eq_spec(a, c),
    decreases a, 4int,
{
    match (a, b, c) {
        (Some(x), Some(y), Some(z)) => lemma_trans(*x, *y, *z),
        _ => {},
    }
}

/// Structural equality is an equivalence: every form equals itself, the
/// relation is symmetric, and it is transitive.
pub proof fn law_struct_eq_is_an_equivalence(a: Node, b: Node, c: Node)
    ensures
        struct_eq_spec(a, a),
        struct_eq_spec(a, b) ==> struct_eq_spec(b, a),
        struct_eq_spec(a, b) && struct_eq_spec(b, c) ==> struct_eq_spec(a, c),
{
    lemma_refl(a);
    if struct_eq_spec(a, b) {
        lemma_sym(a, b);
        if struct_eq_spec(b, c) {
            lemma_trans(a, b, c);
        }
    }
}

/// Spans do not matter: moving a form (its own span, and nothing else)
/// keeps it structurally equal to itself.
pub proof fn law_struct_eq_ignores_spans(a: Node, start: usize, end: usize)
    ensures
        struct_eq_spec(a, Node { start, end, ..a }),
{
    lemma_refl(a);
}

} // verus!
