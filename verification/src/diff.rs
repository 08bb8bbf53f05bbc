//! Structural tree diff of two forms: how they differ as trees, modulo
//! formatting.
//!
//! Two forms that are structurally equal ([`struct_eq`]) have no diff. Two
//! lists with the same delimiter and equal dotted tails are descended into:
//! their children are aligned on the longest common subsequence of
//! structurally equal children, and each gap between those anchors pairs old
//! and new children positionally (recursing), the surplus surfacing as removed
//! or added children. Two reader macros with the same notation and equal
//! auxiliary datum are descended into through their target. Anything else is
//! replaced whole. Unchanged children are not reported; a renderer elides
//! them.

use vstd::prelude::*;

use vstd::utf8::encode_utf8;

use crate::format::{node_string, node_text};
use crate::hash::{anchor_hash, anchor_hash_spec};
use crate::linehash::{decimal, decimal_string};
use crate::reader::{read, Dialect, Node, Shape};
use crate::sexpr::{opt_eq, opt_eq_spec, struct_eq, struct_eq_spec};
use crate::text::{chars_of, line_numbers, nl_count, push_char, word_spans, words};
pub use crate::units::{deep_text, diff_files, diff_files_deep, DeepDiff, NodeEntry, UnitLens, UnitTreeDiff};
pub use crate::html::{deep_html, diff_html, form_diff_html};

verus! {

/// A short, one-line preview of a form plus its editing anchor.
#[derive(Debug, PartialEq, Eq)]
pub struct Frag {
    /// The form's text with its whitespace runs collapsed to one space,
    /// truncated to 60 characters (then `…` marks the cut).
    pub text: String,
    /// 1-based start line of the form.
    pub line: u32,
    /// 4-hex anchor hash of the form's text.
    pub hash: String,
}

/// How two aligned forms differ.
#[derive(Debug, PartialEq, Eq)]
pub enum FormDiff {
    /// Descended into a container: its changed children (unchanged ones are
    /// omitted; `child_count` is the new side's total so a renderer can show
    /// elision).
    Descend {
        /// The container's head symbol, or a delimiter hint.
        label: String,
        /// Total number of children on the new side.
        child_count: usize,
        /// The changed children, in alignment order.
        children: Vec<ChildDiff>,
    },
    /// Not the same category: the whole form is replaced.
    Replace { old: Frag, new: Frag },
}

/// One changed child within a [`FormDiff::Descend`]; `index` places it on
/// the new side.
#[derive(Debug, PartialEq, Eq)]
pub enum ChildDiff {
    /// A child present only in the new version.
    Added { index: usize, frag: Frag },
    /// A child present only in the old version.
    Removed { index: usize, frag: Frag },
    /// A child present in both but differing.
    Paired { index: usize, diff: FormDiff },
}

// --- Previews ---------------------------------------------------------------------

/// `ws[..k]` joined with single spaces.
pub open spec fn join_words(ws: Seq<Seq<char>>, k: int) -> Seq<char>
    decreases k,
{
    if k <= 0 {
        Seq::empty()
    } else if k == 1 {
        ws[0]
    } else {
        join_words(ws, k - 1) + seq![' '] + ws[k - 1]
    }
}

/// `t` with its whitespace runs collapsed to one space and its ends
/// trimmed, cut to 60 characters with `…` marking a cut.
pub open spec fn one_line_spec(t: Seq<char>) -> Seq<char> {
    let ws = words(t);
    let c = join_words(ws, ws.len() as int);
    if c.len() > 60 {
        c.take(60).push('…')
    } else {
        c
    }
}

/// The 1-based line `n` starts on, saturating at `u32::MAX`.
pub open spec fn line_u32(src: Seq<char>, n: Node) -> u32 {
    if nl_count(src, n.start as int) + 1 <= u32::MAX {
        (nl_count(src, n.start as int) + 1) as u32
    } else {
        u32::MAX
    }
}

/// Whether `f` is the preview of `n` in `src`.
pub open spec fn frag_is(src: Seq<char>, n: Node, f: Frag) -> bool {
    &&& f.text@ == one_line_spec(node_text(src, n))
    &&& f.line == line_u32(src, n)
    &&& f.hash@ == anchor_hash_spec(encode_utf8(node_text(src, n)))
}

/// A container's label: a list's head symbol, `(…)` for a list without
/// one, `prefix` for a reader macro, `…` otherwise.
pub open spec fn container_label(n: Node) -> Seq<char> {
    match n.shape {
        Shape::List => if n.items@.len() > 0 && n.items@[0].shape == Shape::Symbol {
            n.items@[0].key@
        } else {
            "(…)"@
        },
        Shape::Prefixed => "prefix"@,
        _ => "…"@,
    }
}

/// The one-line preview of `t`.
pub fn one_line(t: &[char]) -> (s: String)
    ensures
        s@ == one_line_spec(t@),
{
    let spans = word_spans(t, 0, t.len());
    let ghost ws = words(t@);
    assert(t@.subrange(0, t@.len() as int) == t@);
    let mut c: Vec<char> = Vec::new();
    let mut k: usize = 0;
    while k < spans.len()
        invariant
            ws == words(t@),
            t@.subrange(0, t@.len() as int) == t@,
            spans@.len() == ws.len(),
            forall|q: int|
                0 <= q < spans@.len() ==> 0 <= (#[trigger] spans@[q]).0 <= spans@[q].1 <= t@.len()
                    && t@.subrange(spans@[q].0 as int, spans@[q].1 as int) == ws[q],
            k <= spans@.len(),
            c@ == join_words(ws, k as int),
        decreases spans.len() - k,
    {
        if k > 0 {
            c.push(' ');
        }
        let (a, b) = spans[k];
        let mut i = a;
        let ghost c0 = c@;
        while i < b
            invariant
                a <= i <= b <= t@.len(),
                c@ == c0 + t@.subrange(a as int, i as int),
            decreases b - i,
        {
            c.push(t[i]);
            assert(t@.subrange(a as int, i + 1) == t@.subrange(a as int, i as int).push(t@[i as int]));
            i = i + 1;
        }
        proof {
            if k == 0 {
                assert(c@ == ws[0]);
            }
        }
        k = k + 1;
    }
    let mut s = String::new();
    if c.len() > 60 {
        let mut i: usize = 0;
        while i < 60
            invariant
                i <= 60 < c@.len(),
                s@ == c@.take(i as int),
            decreases 60 - i,
        {
            push_char(&mut s, c[i]);
            assert(c@.take(i + 1) == c@.take(i as int).push(c@[i as int]));
            i = i + 1;
        }
        push_char(&mut s, '…');
    } else {
        let mut i: usize = 0;
        while i < c.len()
            invariant
                i <= c@.len(),
                s@ == c@.take(i as int),
            decreases c.len() - i,
        {
            push_char(&mut s, c[i]);
            assert(c@.take(i + 1) == c@.take(i as int).push(c@[i as int]));
            i = i + 1;
        }
        assert(c@.take(c@.len() as int) == c@);
    }
    s
}

/// Whether `nl` is the line table of `cs`.
pub open spec fn line_table_of(cs: Seq<char>, nl: Seq<usize>) -> bool {
    &&& nl.len() == cs.len() + 1
    &&& forall|k: int| 0 <= k <= cs.len() ==> nl[k] == nl_count(cs, k)
}

/// The preview of `n` in `cs`.
pub fn frag(cs: &[char], nl: &Vec<usize>, n: &Node) -> (f: Frag)
    requires
        line_table_of(cs@, nl@),
    ensures
        frag_is(cs@, *n, f),
{
    let text = node_string(cs, n);
    let tc = chars_of(text.as_str());
    let s = if n.start <= cs.len() {
        n.start
    } else {
        cs.len()
    };
    let l = nl[s];
    let line: u32 = if l < u32::MAX as usize {
        (l + 1) as u32
    } else {
        u32::MAX
    };
    Frag { text: one_line(tc.as_slice()), line, hash: anchor_hash(text.as_str().as_bytes()) }
}

/// The label of container `n`.
pub fn label_of(n: &Node) -> (s: String)
    ensures
        s@ == container_label(*n),
{
    match n.shape {
        Shape::List => {
            if n.items.len() > 0 && match n.items[0].shape {
                Shape::Symbol => true,
                _ => false,
            } {
                n.items[0].key.clone()
            } else {
                String::from_str("(…)")
            }
        },
        Shape::Prefixed => String::from_str("prefix"),
        _ => String::from_str("…"),
    }
}

// --- Alignment ----------------------------------------------------------------------

/// The length of the longest common subsequence, under structural equality,
/// of `a[i..]` and `b[j..]`.
pub open spec fn lcs_len(a: Seq<Node>, b: Seq<Node>, i: int, j: int) -> nat
    decreases a.len() - i + b.len() - j,
{
    if i < 0 || j < 0 || i >= a.len() || j >= b.len() {
        0
    } else if struct_eq_spec(a[i], b[j]) {
        1 + lcs_len(a, b, i + 1, j + 1)
    } else {
        let x = lcs_len(a, b, i + 1, j);
        let y = lcs_len(a, b, i, j + 1);
        if x >= y {
            x
        } else {
            y
        }
    }
}

/// The anchors of `a[i..]` and `b[j..]`: the index pairs of one longest
/// common subsequence, taking an equal pair when the heads are equal, else
/// dropping the old head when that loses nothing, else the new head.
pub open spec fn lcs_trace(a: Seq<Node>, b: Seq<Node>, i: int, j: int) -> Seq<(int, int)>
    decreases a.len() - i + b.len() - j,
{
    if i < 0 || j < 0 || i >= a.len() || j >= b.len() {
        Seq::empty()
    } else if struct_eq_spec(a[i], b[j]) {
        seq![(i, j)] + lcs_trace(a, b, i + 1, j + 1)
    } else if lcs_len(a, b, i + 1, j) >= lcs_len(a, b, i, j + 1) {
        lcs_trace(a, b, i + 1, j)
    } else {
        lcs_trace(a, b, i, j + 1)
    }
}

proof fn lemma_lcs_bound(a: Seq<Node>, b: Seq<Node>, i: int, j: int)
    requires
        0 <= i <= a.len(),
        0 <= j <= b.len(),
    ensures
        lcs_len(a, b, i, j) <= a.len() - i,
    decreases a.len() - i + b.len() - j,
{
    if i < a.len() && j < b.len() {
        lemma_lcs_bound(a, b, i + 1, j + 1);
        lemma_lcs_bound(a, b, i + 1, j);
        lemma_lcs_bound(a, b, i, j + 1);
    }
}

/// The anchors lie in `a[i..]` × `b[j..]` and strictly increase on both
/// sides.
pub proof fn lemma_lcs_trace(a: Seq<Node>, b: Seq<Node>, i: int, j: int)
    requires
        0 <= i,
        0 <= j,
    ensures
        forall|k: int|
            0 <= k < lcs_trace(a, b, i, j).len() ==> i <= (#[trigger] lcs_trace(a, b, i, j)[k]).0
                < a.len() && j <= lcs_trace(a, b, i, j)[k].1 < b.len(),
        forall|k: int|
            0 <= k < lcs_trace(a, b, i, j).len() - 1 ==> (#[trigger] lcs_trace(a, b, i, j)[k]).0
                < lcs_trace(a, b, i, j)[k + 1].0 && lcs_trace(a, b, i, j)[k].1 < lcs_trace(
                a,
                b,
                i,
                j,
            )[k + 1].1,
    decreases a.len() - i + b.len() - j,
{
    if i < a.len() && j < b.len() {
        if struct_eq_spec(a[i], b[j]) {
            lemma_lcs_trace(a, b, i + 1, j + 1);
            let t = lcs_trace(a, b, i + 1, j + 1);
            assert(lcs_trace(a, b, i, j) == seq![(i, j)] + t);
            assert forall|k: int| 0 <= k < lcs_trace(a, b, i, j).len() implies i <= (#[trigger] lcs_trace(a, b, i, j)[k]).0
                < a.len() && j <= lcs_trace(a, b, i, j)[k].1 < b.len() by {
                if k > 0 {
                    assert(lcs_trace(a, b, i, j)[k] == t[k - 1]);
                }
            }
            assert forall|k: int| 0 <= k < lcs_trace(a, b, i, j).len() - 1 implies (#[trigger] lcs_trace(
                a,
                b,
                i,
                j,
            )[k]).0 < lcs_trace(a, b, i, j)[k + 1].0 && lcs_trace(a, b, i, j)[k].1 < lcs_trace(
                a,
                b,
                i,
                j,
            )[k + 1].1 by {
                if k > 0 {
                    assert(lcs_trace(a, b, i, j)[k] == t[k - 1]);
                    assert(lcs_trace(a, b, i, j)[k + 1] == t[k]);
                } else {
                    assert(lcs_trace(a, b, i, j)[1] == t[0]);
                }
            }
        } else if lcs_len(a, b, i + 1, j) >= lcs_len(a, b, i, j + 1) {
            lemma_lcs_trace(a, b, i + 1, j);
            assert(lcs_trace(a, b, i, j) == lcs_trace(a, b, i + 1, j));
        } else {
            lemma_lcs_trace(a, b, i, j + 1);
            assert(lcs_trace(a, b, i, j) == lcs_trace(a, b, i, j + 1));
        }
    }
}

/// Whether `m` pairs elements of `a[i..]` with structurally equal elements
/// of `b[j..]`, strictly increasing on both sides.
pub open spec fn is_matching(a: Seq<Node>, b: Seq<Node>, m: Seq<(int, int)>, i: int, j: int) -> bool {
    &&& forall|k: int|
        0 <= k < m.len() ==> i <= (#[trigger] m[k]).0 < a.len() && j <= m[k].1 < b.len() && struct_eq_spec(
            a[m[k].0],
            b[m[k].1],
        )
    &&& forall|k: int, l: int| 0 <= k < l < m.len() ==> (#[trigger] m[k]).0 < (#[trigger] m[l]).0 && m[k].1 < m[l].1
}

proof fn lemma_lcs_steps(a: Seq<Node>, b: Seq<Node>, i: int, j: int)
    requires
        0 <= i,
        0 <= j,
    ensures
        lcs_len(a, b, i + 1, j) <= lcs_len(a, b, i, j) <= lcs_len(a, b, i + 1, j) + 1,
        lcs_len(a, b, i, j + 1) <= lcs_len(a, b, i, j) <= lcs_len(a, b, i, j + 1) + 1,
    decreases a.len() - i + b.len() - j,
{
    if i < a.len() && j < b.len() {
        lemma_lcs_steps(a, b, i + 1, j);
        lemma_lcs_steps(a, b, i, j + 1);
        if i + 1 < a.len() || j + 1 < b.len() {
            lemma_lcs_steps(a, b, i + 1, j + 1);
        }
    }
}

proof fn lemma_trace_matching(a: Seq<Node>, b: Seq<Node>, i: int, j: int)
    requires
        0 <= i,
        0 <= j,
    ensures
        lcs_trace(a, b, i, j).len() == lcs_len(a, b, i, j),
        is_matching(a, b, lcs_trace(a, b, i, j), i, j),
    decreases a.len() - i + b.len() - j,
{
    let t = lcs_trace(a, b, i, j);
    if i < a.len() && j < b.len() {
        if struct_eq_spec(a[i], b[j]) {
            lemma_trace_matching(a, b, i + 1, j + 1);
            let u = lcs_trace(a, b, i + 1, j + 1);
            assert(t == seq![(i, j)] + u);
            assert forall|k: int| 0 <= k < t.len() implies i <= (#[trigger] t[k]).0 < a.len() && j <= t[k].1
                < b.len() && struct_eq_spec(a[t[k].0], b[t[k].1]) by {
                if k > 0 {
                    assert(t[k] == u[k - 1]);
                }
            }
            assert forall|k: int, l: int| 0 <= k < l < t.len() implies (#[trigger] t[k]).0 < (#[trigger] t[l]).0
                && t[k].1 < t[l].1 by {
                assert(t[l] == u[l - 1]);
                if k > 0 {
                    assert(t[k] == u[k - 1]);
                }
            }
        } else if lcs_len(a, b, i + 1, j) >= lcs_len(a, b, i, j + 1) {
            lemma_trace_matching(a, b, i + 1, j);
        } else {
            lemma_trace_matching(a, b, i, j + 1);
        }
    }
}

proof fn lemma_matching_bound(a: Seq<Node>, b: Seq<Node>, m: Seq<(int, int)>, i: int, j: int)
    requires
        0 <= i,
        0 <= j,
        is_matching(a, b, m, i, j),
    ensures
        m.len() <= lcs_len(a, b, i, j),
    decreases a.len() - i + b.len() - j,
{
    if m.len() > 0 {
        let (p, q) = m[0];
        assert(i <= p < a.len() && j <= q < b.len());
        lemma_lcs_steps(a, b, i, j);
        if p == i && q == j {
            let r = m.drop_first();
            assert forall|k: int| 0 <= k < r.len() implies i + 1 <= (#[trigger] r[k]).0 < a.len() && j + 1
                <= r[k].1 < b.len() && struct_eq_spec(a[r[k].0], b[r[k].1]) by {
                assert(r[k] == m[k + 1]);
            }
            assert forall|k: int, l: int| 0 <= k < l < r.len() implies (#[trigger] r[k]).0 < (#[trigger] r[l]).0
                && r[k].1 < r[l].1 by {
                assert(r[k] == m[k + 1] && r[l] == m[l + 1]);
            }
            lemma_matching_bound(a, b, r, i + 1, j + 1);
        } else if p > i {
            assert forall|k: int| 0 <= k < m.len() implies i + 1 <= (#[trigger] m[k]).0 < a.len() && j <= m[k].1
                < b.len() && struct_eq_spec(a[m[k].0], b[m[k].1]) by {
                if k > 0 {
                    assert(m[0].0 < m[k].0);
                }
            }
            lemma_matching_bound(a, b, m, i + 1, j);
        } else {
            assert forall|k: int| 0 <= k < m.len() implies i <= (#[trigger] m[k]).0 < a.len() && j + 1 <= m[k].1
                < b.len() && struct_eq_spec(a[m[k].0], b[m[k].1]) by {
                if k > 0 {
                    assert(m[0].1 < m[k].1);
                }
            }
            lemma_matching_bound(a, b, m, i, j + 1);
        }
    }
}

/// The anchors the form diff aligns children by are a longest matching:
/// they pair structurally equal children, increasing on both sides, and no
/// such matching is longer.
pub proof fn law_lcs_anchors_are_a_longest_matching(a: Seq<Node>, b: Seq<Node>, m: Seq<(int, int)>)
    requires
        is_matching(a, b, m, 0, 0),
    ensures
        is_matching(a, b, lcs_trace(a, b, 0, 0), 0, 0),
        m.len() <= lcs_trace(a, b, 0, 0).len(),
{
    lemma_trace_matching(a, b, 0, 0);
    lemma_matching_bound(a, b, m, 0, 0);
}

/// The anchors of `a` and `b`: the `struct_eq` LCS as `(old, new)` index
/// pairs, increasing on both sides.
pub fn lcs_matches(a: &[Node], b: &[Node]) -> (r: Vec<(usize, usize)>)
    ensures
        r@.len() == lcs_trace(a@, b@, 0, 0).len(),
        forall|k: int|
            0 <= k < r@.len() ==> ((#[trigger] r@[k]).0 as int, r@[k].1 as int) == lcs_trace(
                a@,
                b@,
                0,
                0,
            )[k],
{
    let m = a.len();
    let n = b.len();
    // rows[m - i][j] == lcs_len(i, j)
    let mut rows: Vec<Vec<usize>> = Vec::new();
    let mut last: Vec<usize> = Vec::new();
    last.push(0);
    let mut q: usize = 0;
    while q < n
        invariant
            n == b@.len(),
            q <= n,
            last@.len() == q + 1,
            forall|x: int| 0 <= x <= q ==> last@[x] == 0,
        decreases n - q,
    {
        last.push(0);
        q = q + 1;
    }
    assert forall|x: int| 0 <= x <= n implies last@[x] == lcs_len(a@, b@, m as int, x) by {}
    rows.push(last);
    let mut i: usize = m;
    while i > 0
        invariant
            m == a@.len(),
            n == b@.len(),
            i <= m,
            rows@.len() == m - i + 1,
            forall|r: int| 0 <= r < rows@.len() ==> #[trigger] rows@[r]@.len() == n + 1,
            forall|r: int, x: int|
                0 <= r < rows@.len() && 0 <= x <= n ==> #[trigger] rows@[r]@[x] == lcs_len(
                    a@,
                    b@,
                    m - r,
                    x,
                ),
        decreases i,
    {
        let ii = i - 1;
        let below = m - i;
        let mut row: Vec<usize> = Vec::new();
        row.push(0);
        let mut q: usize = 0;
        while q < n
            invariant
                q <= n,
                row@.len() == q + 1,
                forall|x: int| 0 <= x <= q ==> row@[x] == 0,
            decreases n - q,
        {
            row.push(0);
            q = q + 1;
        }
        let mut j: usize = n;
        proof {
            lemma_lcs_bound(a@, b@, ii as int, n as int);
        }
        assert(row@[n as int] == lcs_len(a@, b@, ii as int, n as int));
        while j > 0
            invariant
                m == a@.len(),
                n == b@.len(),
                ii < m,
                below == m - ii - 1,
                below < rows@.len(),
                rows@[below as int]@.len() == n + 1,
                forall|x: int| 0 <= x <= n ==> #[trigger] rows@[below as int]@[x] == lcs_len(a@, b@, ii + 1, x),
                j <= n,
                row@.len() == n + 1,
                forall|x: int| j <= x <= n ==> #[trigger] row@[x] == lcs_len(a@, b@, ii as int, x),
            decreases j,
        {
            let jj = j - 1;
            proof {
                lemma_lcs_bound(a@, b@, ii + 1, jj + 1);
                lemma_lcs_bound(a@, b@, ii as int, jj as int);
            }
            let v = if struct_eq(&a[ii], &b[jj]) {
                rows[below][jj + 1] + 1
            } else {
                let x = rows[below][jj];
                let y = row[jj + 1];
                if x >= y {
                    x
                } else {
                    y
                }
            };
            row.set(jj, v);
            j = jj;
        }
        rows.push(row);
        i = ii;
        proof {
            assert forall|r: int, x: int| 0 <= r < rows@.len() && 0 <= x <= n implies #[trigger] rows@[r]@[x]
                == lcs_len(a@, b@, m - r, x) by {
                if r == rows@.len() - 1 {
                    assert(m - r == ii);
                }
            }
        }
    }
    let ghost full = lcs_trace(a@, b@, 0, 0);
    let mut out: Vec<(usize, usize)> = Vec::new();
    let mut i: usize = 0;
    let mut j: usize = 0;
    proof {
        lemma_lcs_trace(a@, b@, 0, 0);
    }
    while i < m && j < n
        invariant
            m == a@.len(),
            n == b@.len(),
            rows@.len() == m + 1,
            forall|r: int| 0 <= r < rows@.len() ==> #[trigger] rows@[r]@.len() == n + 1,
            forall|r: int, x: int|
                0 <= r < rows@.len() && 0 <= x <= n ==> #[trigger] rows@[r]@[x] == lcs_len(
                    a@,
                    b@,
                    m - r,
                    x,
                ),
            i <= m,
            j <= n,
            out@.len() + lcs_trace(a@, b@, i as int, j as int).len() == full.len(),
            forall|k: int| 0 <= k < out@.len() ==> ((#[trigger] out@[k]).0 as int, out@[k].1 as int) == full[k],
            forall|k: int|
                0 <= k < lcs_trace(a@, b@, i as int, j as int).len() ==> #[trigger] lcs_trace(
                    a@,
                    b@,
                    i as int,
                    j as int,
                )[k] == full[out@.len() + k],
        decreases m - i + n - j,
    {
        let ghost rest = lcs_trace(a@, b@, i as int, j as int);
        if struct_eq(&a[i], &b[j]) {
            out.push((i, j));
            proof {
                let t = lcs_trace(a@, b@, i + 1, j + 1);
                assert(rest == seq![(i as int, j as int)] + t);
                assert(rest[0] == full[out@.len() - 1]);
                assert forall|k: int| 0 <= k < t.len() implies #[trigger] t[k] == full[out@.len() + k] by {
                    assert(t[k] == rest[k + 1]);
                }
            }
            i = i + 1;
            j = j + 1;
        } else {
            let x = rows[m - i - 1][j];
            let y = rows[m - i][j + 1];
            assert(x == lcs_len(a@, b@, i + 1, j as int));
            assert(y == lcs_len(a@, b@, i as int, j + 1));
            if x >= y {
                i = i + 1;
            } else {
                j = j + 1;
            }
        }
    }
    assert(lcs_trace(a@, b@, i as int, j as int).len() == 0);
    out
}


// --- The tree diff ------------------------------------------------------------------

/// One step of a child alignment: an old and a new child paired (reported
/// only when they differ), an old child removed (reported at a new-side
/// index), or a new child added.
pub enum Step {
    Pair(int, int),
    Rem(int, int),
    Add(int),
}

pub open spec fn min_int(x: int, y: int) -> int {
    if x <= y {
        x
    } else {
        y
    }
}

/// The differing pairs among the first `k` positional pairs of the gaps
/// starting at `a[pi]` and `b[pj]`.
pub open spec fn pairs_upto(a: Seq<Node>, b: Seq<Node>, pi: int, pj: int, k: int) -> Seq<Step>
    decreases k,
{
    if k <= 0 {
        Seq::empty()
    } else {
        pairs_upto(a, b, pi, pj, k - 1) + if struct_eq_spec(a[pi + k - 1], b[pj + k - 1]) {
            Seq::empty()
        } else {
            seq![Step::Pair(pi + k - 1, pj + k - 1)]
        }
    }
}

/// The steps of the gap `a[pi..ai]` / `b[pj..bj]`: positional pairs, then
/// the old surplus removed at the new-side cursor, then the new surplus
/// added.
pub open spec fn gap_steps(a: Seq<Node>, b: Seq<Node>, pi: int, pj: int, ai: int, bj: int) -> Seq<Step> {
    let common = min_int(ai - pi, bj - pj);
    pairs_upto(a, b, pi, pj, common) + Seq::new(
        (ai - pi - common) as nat,
        |k: int| Step::Rem(pi + common + k, pj + common),
    ) + Seq::new((bj - pj - common) as nat, |k: int| Step::Add(pj + common + k))
}

/// The steps of the gaps before `anchors[t..]`, the previous anchor having
/// ended at `(pi, pj)`.
pub open spec fn plan_from(a: Seq<Node>, b: Seq<Node>, anchors: Seq<(int, int)>, t: int, pi: int, pj: int) -> Seq<Step>
    decreases anchors.len() - t,
{
    if t < 0 || t >= anchors.len() {
        Seq::empty()
    } else {
        gap_steps(a, b, pi, pj, anchors[t].0, anchors[t].1) + plan_from(
            a,
            b,
            anchors,
            t + 1,
            anchors[t].0 + 1,
            anchors[t].1 + 1,
        )
    }
}

/// The anchors of `a` and `b` and a final one past both ends.
pub open spec fn anchors_of(a: Seq<Node>, b: Seq<Node>) -> Seq<(int, int)> {
    lcs_trace(a, b, 0, 0).push((a.len() as int, b.len() as int))
}

/// How the children `a` (old) and `b` (new) align.
pub open spec fn align_plan(a: Seq<Node>, b: Seq<Node>) -> Seq<Step> {
    plan_from(a, b, anchors_of(a, b), 0, 0, 0)
}

/// Whether `c` reports step `s` of aligning `a` and `b`.
pub open spec fn child_is(os: Seq<char>, ns: Seq<char>, a: Seq<Node>, b: Seq<Node>, s: Step, c: ChildDiff) -> bool
    decreases a, 2int, 0int,
{
    match s {
        Step::Pair(io, jn) => 0 <= io < a.len() && 0 <= jn < b.len() && (c matches ChildDiff::Paired {
            index,
            diff,
        } && index == jn && form_diff_is(os, ns, a[io], b[jn], diff)),
        Step::Rem(io, idx) => 0 <= io < a.len() && (c matches ChildDiff::Removed { index, frag }
            && index == idx && frag_is(os, a[io], frag)),
        Step::Add(jn) => 0 <= jn < b.len() && (c matches ChildDiff::Added { index, frag } && index
            == jn && frag_is(ns, b[jn], frag)),
    }
}

/// Whether `cs[..k]` report the steps `p[..k]` of aligning `a` and `b`.
pub open spec fn children_upto(
    os: Seq<char>,
    ns: Seq<char>,
    a: Seq<Node>,
    b: Seq<Node>,
    p: Seq<Step>,
    cs: Seq<ChildDiff>,
    k: int,
) -> bool
    decreases a, 3int, k,
{
    if k <= 0 {
        true
    } else {
        children_upto(os, ns, a, b, p, cs, k - 1) && child_is(os, ns, a, b, p[k - 1], cs[k - 1])
    }
}

/// Whether `cs` are the changed children of aligning `a` with `b`.
pub open spec fn children_are(os: Seq<char>, ns: Seq<char>, a: Seq<Node>, b: Seq<Node>, cs: Seq<ChildDiff>) -> bool
    decreases a, 4int, 0int,
{
    let p = align_plan(a, b);
    &&& cs.len() == p.len()
    &&& children_upto(os, ns, a, b, p, cs, p.len() as int)
}

proof fn lemma_children_upto(
    os: Seq<char>,
    ns: Seq<char>,
    a: Seq<Node>,
    b: Seq<Node>,
    p: Seq<Step>,
    cs: Seq<ChildDiff>,
    k: int,
)
    requires
        0 <= k <= p.len(),
        forall|q: int| 0 <= q < k ==> #[trigger] child_is(os, ns, a, b, p[q], cs[q]),
    ensures
        children_upto(os, ns, a, b, p, cs, k),
    decreases k,
{
    if k > 0 {
        lemma_children_upto(os, ns, a, b, p, cs, k - 1);
        assert(child_is(os, ns, a, b, p[k - 1], cs[k - 1]));
    }
}

/// The children of two reader macros descended into: none when their
/// targets are equal (or one is missing), else the targets' diff at 0.
pub open spec fn prefixed_children(os: Seq<char>, ns: Seq<char>, x: Option<Box<Node>>, y: Option<Box<Node>>, cs: Seq<ChildDiff>) -> bool
    decreases x, 6int, 0int,
{
    match (x, y) {
        (Some(p), Some(q)) => if struct_eq_spec(*p, *q) {
            cs.len() == 0
        } else {
            cs.len() == 1 && (cs[0] matches ChildDiff::Paired { index, diff } && index == 0
                && form_diff_is(os, ns, *p, *q, diff))
        },
        _ => cs.len() == 0,
    }
}

/// Whether `d` is how `old` (in `os`) and `new` (in `ns`) differ, given that
/// they are not structurally equal.
pub open spec fn form_diff_is(os: Seq<char>, ns: Seq<char>, old: Node, new: Node, d: FormDiff) -> bool
    decreases old, 5int, 0int,
{
    if old.shape == Shape::List && new.shape == Shape::List && old.key@ == new.key@ && opt_eq_spec(
        old.tail,
        new.tail,
    ) {
        d matches FormDiff::Descend { label, child_count, children } && label@ == container_label(new)
            && child_count == new.items@.len() && children_are(os, ns, old.items@, new.items@, children@)
    } else if old.shape == Shape::Prefixed && new.shape == Shape::Prefixed && old.longhand
        == new.longhand && opt_eq_spec(old.arg, new.arg) {
        d matches FormDiff::Descend { label, child_count, children } && label@ == container_label(new)
            && child_count == 1 && prefixed_children(os, ns, old.inner, new.inner, children@)
    } else {
        d matches FormDiff::Replace { old: fo, new: fw } && frag_is(os, old, fo) && frag_is(ns, new, fw)
    }
}

/// Whether `r` is the diff of `old` and `new`: none when they are
/// structurally equal.
pub open spec fn diff_result_is(os: Seq<char>, ns: Seq<char>, old: Node, new: Node, r: Option<FormDiff>) -> bool {
    if struct_eq_spec(old, new) {
        r is None
    } else {
        r matches Some(d) && form_diff_is(os, ns, old, new, d)
    }
}

fn same_string(a: &String, b: &String) -> (r: bool)
    ensures
        r == (a@ == b@),
{
    let x = chars_of(a.as_str());
    let y = chars_of(b.as_str());
    crate::text::seq_eq(x.as_slice(), y.as_slice())
}

/// The diff of two forms (`None` when they are structurally equal).
pub fn diff_forms(os: &[char], onl: &Vec<usize>, ns: &[char], nnl: &Vec<usize>, old: &Node, new: &Node) -> (r: Option<FormDiff>)
    requires
        line_table_of(os@, onl@),
        line_table_of(ns@, nnl@),
    ensures
        diff_result_is(os@, ns@, *old, *new, r),
    decreases *old, 4int,
{
    if struct_eq(old, new) {
        None
    } else {
        Some(diff_inner(os, onl, ns, nnl, old, new))
    }
}

fn diff_inner(os: &[char], onl: &Vec<usize>, ns: &[char], nnl: &Vec<usize>, old: &Node, new: &Node) -> (d: FormDiff)
    requires
        line_table_of(os@, onl@),
        line_table_of(ns@, nnl@),
    ensures
        form_diff_is(os@, ns@, *old, *new, d),
    decreases *old, 2int,
{
    let lists = match (old.shape, new.shape) {
        (Shape::List, Shape::List) => true,
        _ => false,
    };
    if lists && same_string(&old.key, &new.key) && opt_eq(&old.tail, &new.tail) {
        let children = align(os, onl, ns, nnl, old.items.as_slice(), new.items.as_slice());
        return FormDiff::Descend { label: label_of(new), child_count: new.items.len(), children };
    }
    let prefixed = match (old.shape, new.shape) {
        (Shape::Prefixed, Shape::Prefixed) => true,
        _ => false,
    };
    if prefixed && old.longhand == new.longhand && opt_eq(&old.arg, &new.arg) {
        let children = prefixed_children_exec(os, onl, ns, nnl, &old.inner, &new.inner);
        return FormDiff::Descend { label: label_of(new), child_count: 1, children };
    }
    FormDiff::Replace { old: frag(os, onl, old), new: frag(ns, nnl, new) }
}

fn prefixed_children_exec(
    os: &[char],
    onl: &Vec<usize>,
    ns: &[char],
    nnl: &Vec<usize>,
    x: &Option<Box<Node>>,
    y: &Option<Box<Node>>,
) -> (r: Vec<ChildDiff>)
    requires
        line_table_of(os@, onl@),
        line_table_of(ns@, nnl@),
    ensures
        prefixed_children(os@, ns@, *x, *y, r@),
    decreases *x, 3int,
{
    let mut r: Vec<ChildDiff> = Vec::new();
    match (x, y) {
        (Some(p), Some(q)) => {
            match diff_forms(os, onl, ns, nnl, p, q) {
                Some(d) => r.push(ChildDiff::Paired { index: 0, diff: d }),
                None => {},
            }
        },
        _ => {},
    }
    r
}

fn align(os: &[char], onl: &Vec<usize>, ns: &[char], nnl: &Vec<usize>, a: &[Node], b: &[Node]) -> (r: Vec<ChildDiff>)
    requires
        line_table_of(os@, onl@),
        line_table_of(ns@, nnl@),
    ensures
        children_are(os@, ns@, a@, b@, r@),
    decreases a@, 1int,
{
    let m = a.len();
    let n = b.len();
    let mut anchors = lcs_matches(a, b);
    anchors.push((m, n));
    let ghost an = anchors_of(a@, b@);
    let ghost plan = align_plan(a@, b@);
    proof {
        lemma_lcs_trace(a@, b@, 0, 0);
        assert forall|k: int| 0 <= k < anchors@.len() implies ((#[trigger] anchors@[k]).0 as int, anchors@[k].1 as int) == an[k] by {
            if k < anchors@.len() - 1 {
            }
        }
    }
    let mut out: Vec<ChildDiff> = Vec::new();
    let ghost mut done: Seq<Step> = Seq::empty();
    let mut pi: usize = 0;
    let mut pj: usize = 0;
    let mut t: usize = 0;
    assert(done + plan_from(a@, b@, an, 0, 0, 0) == plan);
    while t < anchors.len()
        invariant
            line_table_of(os@, onl@),
            line_table_of(ns@, nnl@),
            m == a@.len(),
            n == b@.len(),
            an == anchors_of(a@, b@),
            plan == align_plan(a@, b@),
            anchors@.len() == an.len(),
            forall|k: int| 0 <= k < anchors@.len() ==> ((#[trigger] anchors@[k]).0 as int, anchors@[k].1 as int) == an[k],
            forall|k: int| 0 <= k < an.len() - 1 ==> 0 <= (#[trigger] an[k]).0 < m && 0 <= an[k].1 < n,
            forall|k: int| 0 <= k < an.len() - 2 ==> (#[trigger] an[k]).0 < an[k + 1].0 && an[k].1 < an[k + 1].1,
            an[an.len() - 1] == (m as int, n as int),
            t <= an.len(),
            t < an.len() ==> pi <= an[t as int].0 && pj <= an[t as int].1,
            done + plan_from(a@, b@, an, t as int, pi as int, pj as int) == plan,
            out@.len() == done.len(),
            forall|q: int| 0 <= q < done.len() ==> #[trigger] child_is(os@, ns@, a@, b@, done[q], out@[q]),
        decreases anchors.len() - t,
    {
        let (ai, bj) = anchors[t];
        let og = ai - pi;
        let ng = bj - pj;
        let common = if og <= ng {
            og
        } else {
            ng
        };
        let ghost d0 = done;
        let mut k: usize = 0;
        while k < common
            invariant
                line_table_of(os@, onl@),
                line_table_of(ns@, nnl@),
                m == a@.len(),
                n == b@.len(),
                pi + og <= m,
                pj + ng <= n,
                og == ai - pi,
                ng == bj - pj,
                common <= og,
                common <= ng,
                k <= common,
                done == d0 + pairs_upto(a@, b@, pi as int, pj as int, k as int),
                out@.len() == done.len(),
                forall|q: int| 0 <= q < done.len() ==> #[trigger] child_is(os@, ns@, a@, b@, done[q], out@[q]),
            decreases common - k,
        {
            let ghost o0 = out@;
            match diff_forms(os, onl, ns, nnl, &a[pi + k], &b[pj + k]) {
                Some(d) => {
                    out.push(ChildDiff::Paired { index: pj + k, diff: d });
                    proof {
                        let st = Step::Pair(pi + k, pj + k);
                        assert(child_is(os@, ns@, a@, b@, st, out@[o0.len() as int]));
                        assert forall|q: int| 0 <= q < done.len() + 1 implies #[trigger] child_is(
                            os@,
                            ns@,
                            a@,
                            b@,
                            done.push(st)[q],
                            out@[q],
                        ) by {
                            if q < done.len() {
                                assert(out@[q] == o0[q]);
                            }
                        }
                        done = done.push(st);
                    }
                },
                None => {},
            }
            proof {
                assert(pairs_upto(a@, b@, pi as int, pj as int, k + 1) == pairs_upto(a@, b@, pi as int, pj as int, k as int) + if struct_eq_spec(a@[pi + k], b@[pj + k]) {
                    Seq::<Step>::empty()
                } else {
                    seq![Step::Pair(pi + k, pj + k)]
                });
            }
            k = k + 1;
        }
        let ghost d1 = done;
        let mut k: usize = common;
        while k < og
            invariant
                line_table_of(os@, onl@),
                m == a@.len(),
                n == b@.len(),
                pi + og <= m,
                pj + ng <= n,
                common <= ng,
                common <= k <= og,
                done == d1 + Seq::new((k - common) as nat, |q: int| Step::Rem(pi + common + q, pj + common)),
                out@.len() == done.len(),
                forall|q: int| 0 <= q < done.len() ==> #[trigger] child_is(os@, ns@, a@, b@, done[q], out@[q]),
            decreases og - k,
        {
            let ghost o0 = out@;
            out.push(ChildDiff::Removed { index: pj + common, frag: frag(os, onl, &a[pi + k]) });
            proof {
                let st = Step::Rem(pi + k, pj + common);
                assert(child_is(os@, ns@, a@, b@, st, out@[o0.len() as int]));
                assert forall|q: int| 0 <= q < done.len() + 1 implies #[trigger] child_is(
                    os@,
                    ns@,
                    a@,
                    b@,
                    done.push(st)[q],
                    out@[q],
                ) by {
                    if q < done.len() {
                        assert(out@[q] == o0[q]);
                    }
                }
                assert(Seq::new((k + 1 - common) as nat, |q: int| Step::Rem(pi + common + q, pj + common)) =~= Seq::new((k - common) as nat, |q: int| Step::Rem(pi + common + q, pj + common)).push(st));
                done = done.push(st);
            }
            k = k + 1;
        }
        let ghost d2 = done;
        let mut k: usize = common;
        while k < ng
            invariant
                line_table_of(ns@, nnl@),
                n == b@.len(),
                pj + ng <= n,
                common <= k <= ng,
                done == d2 + Seq::new((k - common) as nat, |q: int| Step::Add(pj + common + q)),
                out@.len() == done.len(),
                forall|q: int| 0 <= q < done.len() ==> #[trigger] child_is(os@, ns@, a@, b@, done[q], out@[q]),
            decreases ng - k,
        {
            let ghost o0 = out@;
            out.push(ChildDiff::Added { index: pj + k, frag: frag(ns, nnl, &b[pj + k]) });
            proof {
                let st = Step::Add(pj + k);
                assert(child_is(os@, ns@, a@, b@, st, out@[o0.len() as int]));
                assert forall|q: int| 0 <= q < done.len() + 1 implies #[trigger] child_is(
                    os@,
                    ns@,
                    a@,
                    b@,
                    done.push(st)[q],
                    out@[q],
                ) by {
                    if q < done.len() {
                        assert(out@[q] == o0[q]);
                    }
                }
                assert(Seq::new((k + 1 - common) as nat, |q: int| Step::Add(pj + common + q)) =~= Seq::new((k - common) as nat, |q: int| Step::Add(pj + common + q)).push(st));
                done = done.push(st);
            }
            k = k + 1;
        }
        proof {
            let g = gap_steps(a@, b@, pi as int, pj as int, ai as int, bj as int);
            assert(done == d0 + g);
            assert(plan_from(a@, b@, an, t as int, pi as int, pj as int) == g + plan_from(
                a@,
                b@,
                an,
                t + 1,
                ai + 1,
                bj + 1,
            ));
        }
        pi = ai.saturating_add(1);
        pj = bj.saturating_add(1);
        t = t + 1;
    }
    assert(done == plan);
    assert forall|k: int| 0 <= k < plan.len() implies #[trigger] child_is(os@, ns@, a@, b@, plan[k], out@[k]) by {
        assert(child_is(os@, ns@, a@, b@, done[k], out@[k]));
    }
    assert(out@.len() == plan.len());
    assert(plan == align_plan(a@, b@));
    proof {
        lemma_children_upto(os@, ns@, a@, b@, plan, out@, plan.len() as int);
    }
    assert(children_are(os@, ns@, a@, b@, out@));
    out
}


/// What diffing the first forms of two sources gives: nothing when either
/// has no form, else the diff of the two first forms.
pub open spec fn source_forms_diff(os: Seq<char>, ns: Seq<char>, fo: Seq<Node>, fw: Seq<Node>, r: Option<FormDiff>) -> bool {
    if fo.len() == 0 || fw.len() == 0 {
        r is None
    } else {
        diff_result_is(os, ns, fo[0], fw[0], r)
    }
}

/// Read two source snippets as `dialect` and diff their first forms: `None`
/// when either has no form, or when they are equal modulo formatting.
pub fn diff_source_forms(old: &str, new: &str, dialect: Dialect) -> (r: Option<FormDiff>)
    ensures
        exists|fo: Seq<Node>, fw: Seq<Node>|
            crate::reader::reads_as(old@, crate::reader::dialect_name_spec(dialect), false, fo)
                && crate::reader::reads_as(new@, crate::reader::dialect_name_spec(dialect), false, fw)
                && #[trigger] source_forms_diff(old@, new@, fo, fw, r),
{
    let fo = read(old, dialect, false);
    let fw = read(new, dialect, false);
    let os = chars_of(old);
    let ns = chars_of(new);
    let onl = line_numbers(os.as_slice());
    let nnl = line_numbers(ns.as_slice());
    let r = if fo.len() == 0 || fw.len() == 0 {
        None
    } else {
        diff_forms(os.as_slice(), &onl, ns.as_slice(), &nnl, &fo[0], &fw[0])
    };
    assert(source_forms_diff(old@, new@, fo@, fw@, r));
    r
}

/// A form has no diff with itself, nor with any form structurally equal to
/// it; any two forms that are not structurally equal have one.
pub proof fn law_equal_forms_have_no_diff(os: Seq<char>, ns: Seq<char>, old: Node, new: Node, r: Option<FormDiff>)
    requires
        diff_result_is(os, ns, old, new, r),
    ensures
        r is None <==> struct_eq_spec(old, new),
        old == new ==> r is None,
{
    crate::sexpr::law_struct_eq_is_an_equivalence(old, old, old);
}

// --- Rendering ------------------------------------------------------------------------

/// Two spaces per level of `indent`.
pub open spec fn pad(indent: int) -> Seq<char> {
    Seq::new(if indent > 0 {
        (2 * indent) as nat
    } else {
        0
    }, |i: int| ' ')
}

pub open spec fn sat_inc(x: int) -> int {
    if x < usize::MAX {
        x + 1
    } else {
        x
    }
}

pub open spec fn child_index(c: ChildDiff) -> int {
    match c {
        ChildDiff::Added { index, .. } => index as int,
        ChildDiff::Removed { index, .. } => index as int,
        ChildDiff::Paired { index, .. } => index as int,
    }
}

/// Whether an elision mark goes before `cs[k]`: unchanged children were
/// skipped before it.
pub open spec fn skipped_before(cs: Seq<ChildDiff>, k: int) -> bool {
    if k == 0 {
        child_index(cs[0]) > 0
    } else {
        child_index(cs[k]) > child_index(cs[k - 1]) + 1
    }
}

/// Whether an elision mark closes a container of `count` children whose
/// changed children are `cs`.
pub open spec fn skipped_after(cs: Seq<ChildDiff>, count: int) -> bool {
    if cs.len() == 0 {
        count > 0
    } else {
        child_index(cs[cs.len() - 1]) + 1 < count
    }
}

/// The rendering of a diff at depth `indent`: a replace as `~ old ⇒ new`;
/// a container as `(label`, its changed children one level deeper (with
/// `…` where unchanged children were skipped), and `)`.
pub open spec fn form_text(d: FormDiff, indent: int) -> Seq<char>
    decreases d, 2int, 0int,
{
    match d {
        FormDiff::Replace { old, new } => pad(indent) + "~ "@ + old.text@ + " ⇒ "@ + new.text@ + "\n"@,
        FormDiff::Descend { label, child_count, children } => pad(indent) + "("@ + label@ + "\n"@
            + children_text(children@, sat_inc(indent), children@.len() as int) + (if skipped_after(
            children@,
            child_count as int,
        ) {
            pad(sat_inc(indent)) + "…\n"@
        } else {
            Seq::empty()
        }) + pad(indent) + ")\n"@,
    }
}

/// The rendering of the children `cs[..k]` at depth `indent`.
pub open spec fn children_text(cs: Seq<ChildDiff>, indent: int, k: int) -> Seq<char>
    decreases cs, 1int, k,
{
    if k <= 0 || k > cs.len() {
        Seq::empty()
    } else {
        children_text(cs, indent, k - 1) + (if skipped_before(cs, k - 1) {
            pad(indent) + "…\n"@
        } else {
            Seq::empty()
        }) + child_text(cs[k - 1], indent)
    }
}

/// The rendering of one changed child: `+ text`, `- text`, or its diff.
pub open spec fn child_text(c: ChildDiff, indent: int) -> Seq<char>
    decreases c, 0int, 0int,
{
    match c {
        ChildDiff::Added { frag, .. } => pad(indent) + "+ "@ + frag.text@ + "\n"@,
        ChildDiff::Removed { frag, .. } => pad(indent) + "- "@ + frag.text@ + "\n"@,
        ChildDiff::Paired { diff, .. } => form_text(diff, indent),
    }
}

pub(crate) fn push_pad(out: &mut String, indent: usize)
    ensures
        final(out)@ == old(out)@ + pad(indent as int),
{
    let mut i: usize = 0;
    let ghost o0 = old(out)@;
    while i < indent
        invariant
            i <= indent,
            out@ == o0 + Seq::new((2 * i) as nat, |q: int| ' '),
        decreases indent - i,
    {
        push_char(out, ' ');
        push_char(out, ' ');
        assert(Seq::new((2 * (i + 1)) as nat, |q: int| ' ') =~= Seq::new((2 * i) as nat, |q: int| ' ').push(' ').push(' '));
        i = i + 1;
    }
}

fn push_str(out: &mut String, s: &str)
    ensures
        final(out)@ == old(out)@ + s@,
{
    out.append(s);
}

pub(crate) fn index_of(c: &ChildDiff) -> (r: usize)
    ensures
        r == child_index(*c),
{
    match c {
        ChildDiff::Added { index, .. } => *index,
        ChildDiff::Removed { index, .. } => *index,
        ChildDiff::Paired { index, .. } => *index,
    }
}

#[verifier::rlimit(50)]
fn write_form_diff(d: &FormDiff, indent: usize, out: &mut String)
    ensures
        final(out)@ == old(out)@ + form_text(*d, indent as int),
    decreases *d, 2int,
{
    proof {
        reveal_strlit("~ ");
        reveal_strlit(" ⇒ ");
        reveal_strlit("\n");
        reveal_strlit("(");
        reveal_strlit(")\n");
        reveal_strlit("…\n");
    }
    let ghost o0 = old(out)@;
    match d {
        FormDiff::Replace { old, new } => {
            push_pad(out, indent);
            push_str(out, "~ ");
            push_str(out, old.text.as_str());
            push_str(out, " ⇒ ");
            push_str(out, new.text.as_str());
            push_str(out, "\n");
        },
        FormDiff::Descend { label, child_count, children } => {
            let inner = indent.saturating_add(1);
            push_pad(out, indent);
            push_str(out, "(");
            push_str(out, label.as_str());
            push_str(out, "\n");
            let ghost o1 = out@;
            proof {
                assert(decreases_to!(*d => (*d)->children));
                assert(decreases_to!(*children => children@));
            }
            write_children(children, inner, out);
            let ghost o2 = out@;
            let after = if children.len() == 0 {
                *child_count > 0
            } else {
                let p = index_of(&children[children.len() - 1]);
                p < usize::MAX && p + 1 < *child_count
            };
            assert(after == skipped_after(children@, *child_count as int));
            if after {
                push_pad(out, inner);
                push_str(out, "…\n");
            }
            let ghost o3 = out@;
            push_pad(out, indent);
            push_str(out, ")\n");
            proof {
                let ct = children_text(children@, sat_inc(indent as int), children@.len() as int);
                let tail = if skipped_after(children@, *child_count as int) {
                    pad(sat_inc(indent as int)) + "…\n"@
                } else {
                    Seq::empty()
                };
                assert(o2 == o1 + ct);
                assert(o3 == o2 + tail);
                assert(out@ == o3 + pad(indent as int) + ")\n"@);
                assert(o1 == o0 + pad(indent as int) + "("@ + label@ + "\n"@);
                assert(form_text(*d, indent as int) == pad(indent as int) + "("@ + label@ + "\n"@ + ct + tail
                    + pad(indent as int) + ")\n"@);
                assert(out@ =~= o0 + form_text(*d, indent as int));
            }
        },
    }
}

fn write_children(children: &Vec<ChildDiff>, inner: usize, out: &mut String)
    ensures
        final(out)@ == old(out)@ + children_text(children@, inner as int, children@.len() as int),
    decreases children@, 1int,
{
    proof {
        reveal_strlit("…\n");
    }
    let ghost head = old(out)@;
    let mut k: usize = 0;
    assert(out@ == head + children_text(children@, inner as int, 0));
    while k < children.len()
        invariant
            k <= children@.len(),
            out@ == head + children_text(children@, inner as int, k as int),
        decreases children.len() - k,
    {
        let idx = index_of(&children[k]);
        let g2 = if k == 0 {
            idx > 0
        } else {
            let p = index_of(&children[k - 1]);
            p < usize::MAX && idx > p + 1
        };
        assert(g2 == skipped_before(children@, k as int));
        let ghost o1 = out@;
        if g2 {
            push_pad(out, inner);
            push_str(out, "…\n");
        }
        let ghost o2 = out@;
        proof {
            assert(decreases_to!(children@ => children@[k as int]));
        }
        write_child_diff(&children[k], inner, out);
        proof {
            let cs = children@;
            let mark = if skipped_before(cs, k as int) {
                pad(inner as int) + "…\n"@
            } else {
                Seq::empty()
            };
            assert(children_text(cs, inner as int, k + 1) == children_text(cs, inner as int, k as int) + mark + child_text(cs[k as int], inner as int));
            assert(o2 == o1 + mark);
            assert(out@ =~= head + children_text(cs, inner as int, k + 1));
        }
        k = k + 1;
    }
}

fn write_child_diff(c: &ChildDiff, indent: usize, out: &mut String)
    ensures
        final(out)@ == old(out)@ + child_text(*c, indent as int),
    decreases *c, 0int,
{
    proof {
        reveal_strlit("+ ");
        reveal_strlit("- ");
        reveal_strlit("\n");
    }
    match c {
        ChildDiff::Added { frag, .. } => {
            push_pad(out, indent);
            push_str(out, "+ ");
            push_str(out, frag.text.as_str());
            push_str(out, "\n");
        },
        ChildDiff::Removed { frag, .. } => {
            push_pad(out, indent);
            push_str(out, "- ");
            push_str(out, frag.text.as_str());
            push_str(out, "\n");
        },
        ChildDiff::Paired { diff, .. } => write_form_diff(diff, indent, out),
    }
}

/// Render a [`FormDiff`] as a pruned tree: the spine of changed paths,
/// unchanged siblings elided to `…`, changes marked `+` / `-` / `~`, one
/// level of two spaces per depth, starting at depth 1.
pub fn form_diff_text(diff: &FormDiff) -> (s: String)
    ensures
        s@ == form_text(*diff, 1),
{
    let mut out = String::new();
    write_form_diff(diff, 1, &mut out);
    out
}


// --- Definition-level diffs -----------------------------------------------------------

/// How a definition unit differs between two versions of a file.
#[derive(Debug, Clone, Copy, PartialEq, Eq, Structural)]
pub enum UnitStatus {
    /// Present only in the new version.
    Added,
    /// Present only in the old version.
    Removed,
    /// Present in both, but not structurally equal.
    Changed,
}

/// The marker of a status in the text rendering.
pub open spec fn marker(s: UnitStatus) -> char {
    match s {
        UnitStatus::Added => '+',
        UnitStatus::Removed => '-',
        UnitStatus::Changed => '~',
    }
}

/// The word of a status, for a section header.
pub open spec fn status_word(s: UnitStatus) -> Seq<char> {
    match s {
        UnitStatus::Added => "added"@,
        UnitStatus::Removed => "removed"@,
        UnitStatus::Changed => "changed"@,
    }
}

/// One changed, added or removed definition unit, with the anchor of the
/// side to edit (the new one for added and changed units).
#[derive(Debug, PartialEq, Eq)]
pub struct UnitDiff {
    /// The defining head symbol, verbatim.
    pub kind: String,
    /// The defined name.
    pub name: String,
    /// A method's dispatch signature, or `None` for a plain definition.
    pub signature: Option<String>,
    /// How the unit differs.
    pub status: UnitStatus,
    /// 1-based start line of the anchor side.
    pub line: u32,
    /// 4-hex anchor hash of the anchor side's form.
    pub hash: String,
}

/// The definition-level differences between two versions of a file.
#[derive(Debug, PartialEq, Eq)]
pub struct FileDiff {
    /// The changed, added and removed units (unchanged ones are omitted).
    pub units: Vec<UnitDiff>,
    /// Whether the top-level forms that define nothing differ between the
    /// versions.
    pub other_forms_changed: bool,
}

impl FileDiff {
    /// Whether there is nothing to report.
    pub fn is_empty(&self) -> (r: bool)
        ensures
            r == (self.units@.len() == 0 && !self.other_forms_changed),
    {
        self.units.len() == 0 && !self.other_forms_changed
    }
}

/// The indices of the units among `us[..k]` with status `st`, in order.
pub open spec fn with_status(us: Seq<UnitDiff>, st: UnitStatus, k: int) -> Seq<usize>
    decreases k,
{
    if k <= 0 || k > us.len() {
        Seq::empty()
    } else {
        with_status(us, st, k - 1) + if us[k - 1].status == st {
            seq![(k - 1) as usize]
        } else {
            Seq::empty()
        }
    }
}

/// Unit index `u` inserted into `s` (sorted by line) after every unit on a
/// line no later than its own.
pub open spec fn insert_by_line(us: Seq<UnitDiff>, s: Seq<usize>, u: usize) -> Seq<usize>
    decreases s.len(),
{
    if s.len() == 0 {
        seq![u]
    } else if us[s.last() as int].line <= us[u as int].line {
        s.push(u)
    } else {
        insert_by_line(us, s.drop_last(), u).push(s.last())
    }
}

/// Unit indices `s` stably sorted by line.
pub open spec fn sort_by_line(us: Seq<UnitDiff>, s: Seq<usize>) -> Seq<usize>
    decreases s.len(),
{
    if s.len() == 0 {
        s
    } else {
        insert_by_line(us, sort_by_line(us, s.drop_last()), s.last())
    }
}

/// One row: `  <marker> <kind> <name>[ <signature>]  <line>:<hash>`.
pub open spec fn row_text(u: UnitDiff) -> Seq<char> {
    "  "@ + seq![marker(u.status)] + " "@ + u.kind@ + " "@ + u.name@ + (match u.signature {
        Some(sig) => " "@ + sig@,
        None => Seq::empty(),
    }) + "  "@ + decimal(u.line as nat) + ":"@ + u.hash@ + "\n"@
}

pub open spec fn rows_text(us: Seq<UnitDiff>, rows: Seq<usize>, k: int) -> Seq<char>
    decreases k,
{
    if k <= 0 || k > rows.len() {
        Seq::empty()
    } else {
        rows_text(us, rows, k - 1) + row_text(us[rows[k - 1] as int])
    }
}

/// A status's section: its header and its units by line, or nothing when
/// it has none.
pub open spec fn section_text(us: Seq<UnitDiff>, st: UnitStatus) -> Seq<char> {
    let rows = sort_by_line(us, with_status(us, st, us.len() as int));
    if rows.len() == 0 {
        Seq::empty()
    } else {
        status_word(st) + ":\n"@ + rows_text(us, rows, rows.len() as int)
    }
}

/// The text rendering of a file diff: the changed, added and removed
/// sections, then a line for the other forms when they changed.
pub open spec fn diff_text_spec(d: FileDiff) -> Seq<char> {
    section_text(d.units@, UnitStatus::Changed) + section_text(d.units@, UnitStatus::Added)
        + section_text(d.units@, UnitStatus::Removed) + if d.other_forms_changed {
        "other:\n  ! other top-level forms changed\n"@
    } else {
        Seq::empty()
    }
}

fn insert_row(units: &Vec<UnitDiff>, sorted: &mut Vec<usize>, u: usize)
    requires
        u < units@.len(),
        forall|q: int| 0 <= q < old(sorted)@.len() ==> old(sorted)@[q] < units@.len(),
    ensures
        final(sorted)@ == insert_by_line(units@, old(sorted)@, u),
        forall|q: int| 0 <= q < final(sorted)@.len() ==> final(sorted)@[q] < units@.len(),
{
    let ghost us = units@;
    let mut p = sorted.len();
    assert(sorted@.subrange(0, p as int) == sorted@);
    while p > 0 && !(units[sorted[p - 1]].line <= units[u].line)
        invariant
            us == units@,
            u < us.len(),
            forall|q: int| 0 <= q < sorted@.len() ==> sorted@[q] < us.len(),
            p <= sorted@.len(),
            sorted@ == old(sorted)@,
            insert_by_line(us, sorted@, u) == insert_by_line(us, sorted@.subrange(0, p as int), u)
                + sorted@.subrange(p as int, sorted@.len() as int),
        decreases p,
    {
        let ghost s = sorted@.subrange(0, p as int);
        assert(s.drop_last() == sorted@.subrange(0, p - 1));
        assert(s.last() == sorted@[p - 1]);
        assert(seq![sorted@[p - 1]] + sorted@.subrange(p as int, sorted@.len() as int)
            == sorted@.subrange(p - 1, sorted@.len() as int));
        p = p - 1;
    }
    proof {
        let s = sorted@.subrange(0, p as int);
        if p > 0 {
            assert(s.last() == sorted@[p - 1]);
        }
        assert(insert_by_line(us, s, u) == s.push(u));
    }
    sorted.insert(p, u);
    assert(sorted@ == old(sorted)@.subrange(0, p as int).push(u) + old(sorted)@.subrange(
        p as int,
        old(sorted)@.len() as int,
    ));
}

/// The indices of the units with status `st`, ordered by line (stably): the
/// rows of that status's section.
pub fn section_rows(units: &Vec<UnitDiff>, st: UnitStatus) -> (rows: Vec<usize>)
    ensures
        rows@ == sort_by_line(units@, with_status(units@, st, units@.len() as int)),
        forall|q: int| 0 <= q < rows@.len() ==> rows@[q] < units@.len(),
{
    let ghost us = units@;
    let mut rows: Vec<usize> = Vec::new();
    let mut k: usize = 0;
    while k < units.len()
        invariant
            us == units@,
            k <= us.len(),
            rows@ == sort_by_line(us, with_status(us, st, k as int)),
            forall|q: int| 0 <= q < rows@.len() ==> rows@[q] < us.len(),
        decreases units.len() - k,
    {
        if units[k].status == st {
            let ghost before = with_status(us, st, k as int);
            insert_row(units, &mut rows, k);
            proof {
                let after = before.push(k);
                assert(with_status(us, st, k + 1) == after);
                assert(after.drop_last() == before);
            }
        } else {
            assert(with_status(us, st, k + 1) == with_status(us, st, k as int));
        }
        k = k + 1;
    }
    rows
}

fn write_section(units: &Vec<UnitDiff>, st: UnitStatus, out: &mut String)
    ensures
        final(out)@ == old(out)@ + section_text(units@, st),
{
    let ghost us = units@;
    let rows = section_rows(units, st);
    if rows.len() == 0 {
        return;
    }
    proof {
        reveal_strlit(":\n");
        reveal_strlit("  ");
        reveal_strlit(" ");
        reveal_strlit(":");
        reveal_strlit("\n");
        reveal_strlit("added");
        reveal_strlit("removed");
        reveal_strlit("changed");
    }
    let word = match st {
        UnitStatus::Added => "added",
        UnitStatus::Removed => "removed",
        UnitStatus::Changed => "changed",
    };
    out.append(word);
    out.append(":\n");
    let ghost head = out@;
    let mut i: usize = 0;
    while i < rows.len()
        invariant
            us == units@,
            forall|q: int| 0 <= q < rows@.len() ==> rows@[q] < us.len(),
            i <= rows@.len(),
            out@ == head + rows_text(us, rows@, i as int),
        decreases rows.len() - i,
    {
        let u = &units[rows[i]];
        let ghost o0 = out@;
        out.append("  ");
        let mk = match u.status {
            UnitStatus::Added => '+',
            UnitStatus::Removed => '-',
            UnitStatus::Changed => '~',
        };
        push_char(out, mk);
        out.append(" ");
        out.append(u.kind.as_str());
        out.append(" ");
        out.append(u.name.as_str());
        match &u.signature {
            Some(sig) => {
                out.append(" ");
                out.append(sig.as_str());
            },
            None => {},
        }
        out.append("  ");
        let num = decimal_string(u.line as usize);
        out.append(num.as_str());
        out.append(":");
        out.append(u.hash.as_str());
        out.append("\n");
        proof {
            assert(out@ =~= o0 + row_text(us[rows@[i as int] as int]));
        }
        i = i + 1;
    }
}

/// Render a file diff as terse text: the changed, added and removed units
/// in sections of their own (empty sections omitted), each sorted by line,
/// one row each as `<marker> <kind> <name>[ <signature>]  <line>:<hash>`;
/// then `! other top-level forms changed` under `other:` when they did.
/// Structurally identical versions render the empty string.
pub fn diff_text(diff: &FileDiff) -> (s: String)
    ensures
        s@ == diff_text_spec(*diff),
{
    let mut out = String::new();
    write_section(&diff.units, UnitStatus::Changed, &mut out);
    write_section(&diff.units, UnitStatus::Added, &mut out);
    write_section(&diff.units, UnitStatus::Removed, &mut out);
    if diff.other_forms_changed {
        proof {
            reveal_strlit("other:\n  ! other top-level forms changed\n");
        }
        out.append("other:\n  ! other top-level forms changed\n");
    }
    out
}


proof fn lemma_insert_by_line_len(us: Seq<UnitDiff>, s: Seq<usize>, u: usize)
    ensures
        insert_by_line(us, s, u).len() == s.len() + 1,
    decreases s.len(),
{
    if s.len() > 0 && !(us[s.last() as int].line <= us[u as int].line) {
        lemma_insert_by_line_len(us, s.drop_last(), u);
    }
}

proof fn lemma_sort_by_line_len(us: Seq<UnitDiff>, s: Seq<usize>)
    ensures
        sort_by_line(us, s).len() == s.len(),
    decreases s.len(),
{
    if s.len() > 0 {
        lemma_sort_by_line_len(us, s.drop_last());
        lemma_insert_by_line_len(us, sort_by_line(us, s.drop_last()), s.last());
    }
}

proof fn lemma_with_status_len(us: Seq<UnitDiff>, st: UnitStatus, k: int)
    requires
        0 <= k <= us.len(),
    ensures
        with_status(us, st, k).len() == 0 <==> forall|j: int| 0 <= j < k ==> us[j].status != st,
    decreases k,
{
    if k > 0 {
        lemma_with_status_len(us, st, k - 1);
    }
}

/// The text rendering of a file diff is empty exactly when nothing changed:
/// no unit is reported and the other top-level forms are the same.
pub proof fn law_diff_text_empty_iff_no_change(d: FileDiff)
    ensures
        diff_text_spec(d).len() == 0 <==> (d.units@.len() == 0 && !d.other_forms_changed),
{
    reveal_strlit(":\n");
    reveal_strlit("other:\n  ! other top-level forms changed\n");
    let us = d.units@;
    let n = us.len() as int;
    lemma_with_status_len(us, UnitStatus::Changed, n);
    lemma_with_status_len(us, UnitStatus::Added, n);
    lemma_with_status_len(us, UnitStatus::Removed, n);
    lemma_sort_by_line_len(us, with_status(us, UnitStatus::Changed, n));
    lemma_sort_by_line_len(us, with_status(us, UnitStatus::Added, n));
    lemma_sort_by_line_len(us, with_status(us, UnitStatus::Removed, n));
    if us.len() > 0 {
        let st = us[0].status;
        assert(with_status(us, st, n).len() > 0);
        assert(section_text(us, st).len() > 0);
    }
}

} // verus!
