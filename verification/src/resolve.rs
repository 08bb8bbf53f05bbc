//! Resolving a Structural anchor (`line:hash[:ordinal]`) to a node of the
//! tree.
//!
//! A read emits, per node, its start line and a content hash; an edit hands
//! the same `line:hash` back. Resolution walks the tree in pre-order (list
//! items only) and matches by `(line, hash)`, picking the `ordinal`-th match
//! on the rare same-line collision. The located node carries its parent and
//! index so ops that need sibling or parent context can be built.

use vstd::prelude::*;

use vstd::utf8::encode_utf8;

use crate::format::{node_string, node_text};
use crate::hash::{anchor_hash, anchor_hash_spec};
use crate::patch::{Anchor, AnchorV};
use crate::reader::{Node, Shape};
use crate::text::{chars_of, nl_count, seq_eq};

verus! {

/// A node found by [`resolve`], with the context ops may need.
#[derive(Clone, Copy)]
pub struct Located<'a> {
    /// The matched node.
    pub node: &'a Node,
    /// Its enclosing list, if any (`None` for a top-level node).
    pub parent: Option<&'a Node>,
    /// Its index within the parent's items (or among the top-level data).
    pub index: usize,
}

/// What a [`Located`] holds.
pub struct LocV {
    pub node: Node,
    pub parent: Option<Node>,
    pub index: int,
}

impl<'a> View for Located<'a> {
    type V = LocV;

    open spec fn view(&self) -> LocV {
        LocV {
            node: *self.node,
            parent: match self.parent {
                Some(p) => Some(*p),
                None => None,
            },
            index: self.index as int,
        }
    }
}

/// The 1-based line a node starts on.
pub open spec fn node_line(src: Seq<char>, n: Node) -> int {
    nl_count(src, n.start as int) + 1int
}

/// Whether `n` is what anchor `a` names: it starts on `a`'s line and its
/// source text hashes to `a`'s hash.
pub open spec fn anchor_hit(src: Seq<char>, a: AnchorV, n: Node) -> bool {
    node_line(src, n) == a.line && anchor_hash_spec(encode_utf8(node_text(src, n))) == a.hash
}

/// The nodes `a` names among `data[..k]` (children of `parent`), in
/// pre-order through list items.
pub open spec fn hits_range(src: Seq<char>, a: AnchorV, data: Seq<Node>, parent: Option<Node>, k: int) -> Seq<LocV>
    decreases data, k,
{
    if k <= 0 || k > data.len() {
        Seq::empty()
    } else {
        hits_range(src, a, data, parent, k - 1) + hits_one(src, a, data[k - 1], parent, k - 1)
    }
}

/// The nodes `a` names in the subtree of `n`, which sits at `index` under
/// `parent`: `n` itself first, then inside its items.
pub open spec fn hits_one(src: Seq<char>, a: AnchorV, n: Node, parent: Option<Node>, index: int) -> Seq<LocV>
    decreases n, 0int,
{
    (if anchor_hit(src, a, n) {
        seq![LocV { node: n, parent, index }]
    } else {
        Seq::empty()
    }) + (if n.shape == Shape::List {
        hits_range(src, a, n.items@, Some(n), n.items@.len() as int)
    } else {
        Seq::empty()
    })
}

/// Which match an anchor picks: its ordinal, 1-based (0 and 1 both pick
/// the first), the first when absent.
pub open spec fn nth_match(a: AnchorV) -> int {
    match a.ordinal {
        Some(o) => if o == 0 {
            0
        } else {
            o - 1
        },
        None => 0,
    }
}

/// The node anchor `a` names among the top-level `data`, if any.
pub open spec fn resolve_spec(src: Seq<char>, data: Seq<Node>, a: AnchorV) -> Option<LocV> {
    let hs = hits_range(src, a, data, None, data.len() as int);
    if nth_match(a) < hs.len() {
        Some(hs[nth_match(a)])
    } else {
        None
    }
}

fn hit_exec(cs: &[char], nl: &Vec<usize>, a: &Anchor, n: &Node) -> (b: bool)
    requires
        nl@.len() == cs@.len() + 1,
        forall|k: int| 0 <= k <= cs@.len() ==> nl@[k] == nl_count(cs@, k),
    ensures
        b == anchor_hit(cs@, a@, *n),
{
    let s = if n.start <= cs.len() {
        n.start
    } else {
        cs.len()
    };
    let l = nl[s];
    if a.line == 0 || l != (a.line - 1) as usize {
        return false;
    }
    let text = node_string(cs, n);
    let h = anchor_hash(text.as_str().as_bytes());
    let hc = chars_of(h.as_str());
    let ac = chars_of(a.hash.as_str());
    seq_eq(hc.as_slice(), ac.as_slice())
}

fn collect_range<'a>(
    cs: &[char],
    nl: &Vec<usize>,
    a: &Anchor,
    data: &'a [Node],
    parent: Option<&'a Node>,
    out: &mut Vec<Located<'a>>,
)
    requires
        nl@.len() == cs@.len() + 1,
        forall|k: int| 0 <= k <= cs@.len() ==> nl@[k] == nl_count(cs@, k),
    ensures
        final(out)@.len() == old(out)@.len() + hits_range(
            cs@,
            a@,
            data@,
            match parent {
                Some(p) => Some(*p),
                None => None,
            },
            data@.len() as int,
        ).len(),
        forall|i: int| 0 <= i < old(out)@.len() ==> final(out)@[i] == old(out)@[i],
        forall|i: int|
            0 <= i < final(out)@.len() - old(out)@.len() ==> (#[trigger] final(out)@[old(out)@.len()
                + i])@ == hits_range(
                cs@,
                a@,
                data@,
                match parent {
                    Some(p) => Some(*p),
                    None => None,
                },
                data@.len() as int,
            )[i],
    decreases data@, 1int,
{
    let ghost pv = match parent {
        Some(p) => Some(*p),
        None => None,
    };
    let ghost o0 = out@;
    let mut k: usize = 0;
    while k < data.len()
        invariant
            nl@.len() == cs@.len() + 1,
            forall|q: int| 0 <= q <= cs@.len() ==> nl@[q] == nl_count(cs@, q),
            pv == match parent {
                Some(p) => Some(*p),
                None => None,
            },
            k <= data@.len(),
            out@.len() == o0.len() + hits_range(cs@, a@, data@, pv, k as int).len(),
            forall|i: int| 0 <= i < o0.len() ==> out@[i] == o0[i],
            forall|i: int|
                0 <= i < out@.len() - o0.len() ==> (#[trigger] out@[o0.len() + i])@ == hits_range(
                    cs@,
                    a@,
                    data@,
                    pv,
                    k as int,
                )[i],
        decreases data.len() - k,
    {
        let ghost o1 = out@;
        collect_one(cs, nl, a, &data[k], parent, k, out);
        proof {
            let x = hits_range(cs@, a@, data@, pv, k as int);
            let y = hits_one(cs@, a@, data@[k as int], pv, k as int);
            assert(hits_range(cs@, a@, data@, pv, k + 1) == x + y);
            assert forall|i: int| 0 <= i < out@.len() - o0.len() implies (#[trigger] out@[o0.len()
                + i])@ == (x + y)[i] by {
                if i < x.len() {
                    assert(out@[o0.len() + i] == o1[o0.len() + i]);
                } else {
                    assert(out@[o0.len() + i] == out@[o1.len() + (i - x.len())]);
                }
            }
        }
        k = k + 1;
    }
}

fn collect_one<'a>(
    cs: &[char],
    nl: &Vec<usize>,
    a: &Anchor,
    n: &'a Node,
    parent: Option<&'a Node>,
    index: usize,
    out: &mut Vec<Located<'a>>,
)
    requires
        nl@.len() == cs@.len() + 1,
        forall|k: int| 0 <= k <= cs@.len() ==> nl@[k] == nl_count(cs@, k),
    ensures
        final(out)@.len() == old(out)@.len() + hits_one(
            cs@,
            a@,
            *n,
            match parent {
                Some(p) => Some(*p),
                None => None,
            },
            index as int,
        ).len(),
        forall|i: int| 0 <= i < old(out)@.len() ==> final(out)@[i] == old(out)@[i],
        forall|i: int|
            0 <= i < final(out)@.len() - old(out)@.len() ==> (#[trigger] final(out)@[old(out)@.len()
                + i])@ == hits_one(
                cs@,
                a@,
                *n,
                match parent {
                    Some(p) => Some(*p),
                    None => None,
                },
                index as int,
            )[i],
    decreases *n, 0int,
{
    let ghost pv = match parent {
        Some(p) => Some(*p),
        None => None,
    };
    let ghost o0 = out@;
    if hit_exec(cs, nl, a, n) {
        out.push(Located { node: n, parent, index });
    }
    let ghost o1 = out@;
    let is_list = match n.shape {
        Shape::List => true,
        _ => false,
    };
    if is_list {
        collect_range(cs, nl, a, n.items.as_slice(), Some(n), out);
    }
    proof {
        let x = if anchor_hit(cs@, a@, *n) {
            seq![LocV { node: *n, parent: pv, index: index as int }]
        } else {
            Seq::empty()
        };
        let y = if n.shape == Shape::List {
            hits_range(cs@, a@, n.items@, Some(*n), n.items@.len() as int)
        } else {
            Seq::empty()
        };
        assert(hits_one(cs@, a@, *n, pv, index as int) == x + y);
        assert forall|i: int| 0 <= i < out@.len() - o0.len() implies (#[trigger] out@[o0.len()
            + i])@ == (x + y)[i] by {
            if i < x.len() {
                assert(out@[o0.len() + i] == o1[o0.len() + i]);
            } else {
                assert(out@[o0.len() + i] == out@[o1.len() + (i - x.len())]);
            }
        }
    }
}

/// [`resolve`] with the source's characters and line table in hand.
pub(crate) fn resolve_in<'a>(cs: &[char], nl: &Vec<usize>, data: &'a [Node], anchor: &Anchor) -> (r: Option<Located<'a>>)
    requires
        nl@.len() == cs@.len() + 1,
        forall|k: int| 0 <= k <= cs@.len() ==> nl@[k] == nl_count(cs@, k),
    ensures
        match r {
            Some(l) => resolve_spec(cs@, data@, anchor@) == Some(l@),
            None => resolve_spec(cs@, data@, anchor@) is None,
        },
{
    let mut out: Vec<Located<'a>> = Vec::new();
    collect_range(cs, nl, anchor, data, None, &mut out);
    let nth: usize = match anchor.ordinal {
        Some(o) => if o == 0 {
            0
        } else {
            (o - 1) as usize
        },
        None => 0,
    };
    assert(nth == nth_match(anchor@));
    if nth < out.len() {
        let l = out[nth];
        assert(out@[0 + nth as int]@ == hits_range(cs@, anchor@, data@, None, data@.len() as int)[nth as int]);
        Some(l)
    } else {
        None
    }
}

/// Resolve `anchor` against the top-level `data` read from `source`: the
/// `ordinal`-th node (first by default), in pre-order through list items,
/// that starts on the anchor's line and whose text hashes to its hash.
pub fn resolve<'a>(source: &str, data: &'a [Node], anchor: &Anchor) -> (r: Option<Located<'a>>)
    ensures
        match r {
            Some(l) => resolve_spec(source@, data@, anchor@) == Some(l@),
            None => resolve_spec(source@, data@, anchor@) is None,
        },
{
    let cs = chars_of(source);
    let nl = crate::text::line_numbers(cs.as_slice());
    resolve_in(cs.as_slice(), &nl, data, anchor)
}


proof fn lemma_hits_range_are_hits(src: Seq<char>, a: AnchorV, data: Seq<Node>, parent: Option<Node>, k: int)
    ensures
        forall|i: int|
            0 <= i < hits_range(src, a, data, parent, k).len() ==> anchor_hit(
                src,
                a,
                #[trigger] hits_range(src, a, data, parent, k)[i].node,
            ),
    decreases data, k,
{
    if 0 < k <= data.len() {
        lemma_hits_range_are_hits(src, a, data, parent, k - 1);
        lemma_hits_one_are_hits(src, a, data[k - 1], parent, k - 1);
        let x = hits_range(src, a, data, parent, k - 1);
        let y = hits_one(src, a, data[k - 1], parent, k - 1);
        assert forall|i: int| 0 <= i < (x + y).len() implies anchor_hit(src, a, #[trigger] (x + y)[i].node) by {
            if i < x.len() {
                assert((x + y)[i] == x[i]);
            } else {
                assert((x + y)[i] == y[i - x.len()]);
            }
        }
    }
}

proof fn lemma_hits_one_are_hits(src: Seq<char>, a: AnchorV, n: Node, parent: Option<Node>, index: int)
    ensures
        forall|i: int|
            0 <= i < hits_one(src, a, n, parent, index).len() ==> anchor_hit(
                src,
                a,
                #[trigger] hits_one(src, a, n, parent, index)[i].node,
            ),
    decreases n, 0int,
{
    let x: Seq<LocV> = if anchor_hit(src, a, n) {
        seq![LocV { node: n, parent, index }]
    } else {
        Seq::empty()
    };
    let y = if n.shape == Shape::List {
        hits_range(src, a, n.items@, Some(n), n.items@.len() as int)
    } else {
        Seq::empty()
    };
    if n.shape == Shape::List {
        lemma_hits_range_are_hits(src, a, n.items@, Some(n), n.items@.len() as int);
    }
    assert forall|i: int| 0 <= i < (x + y).len() implies anchor_hit(src, a, #[trigger] (x + y)[i].node) by {
        if i < x.len() {
            assert((x + y)[i] == x[i]);
        } else {
            assert((x + y)[i] == y[i - x.len()]);
        }
    }
}

proof fn lemma_hits_range_found(src: Seq<char>, a: AnchorV, data: Seq<Node>, parent: Option<Node>, k: int, j: int)
    requires
        0 <= j < k <= data.len(),
        anchor_hit(src, a, data[j]),
    ensures
        hits_range(src, a, data, parent, k).len() > 0,
        hits_range(src, a, data, parent, j).len() < hits_range(src, a, data, parent, k).len(),
        hits_range(src, a, data, parent, k)[hits_range(src, a, data, parent, j).len() as int] == (LocV {
            node: data[j],
            parent,
            index: j,
        }),
    decreases k,
{
    if j < k - 1 {
        lemma_hits_range_found(src, a, data, parent, k - 1, j);
        let x = hits_range(src, a, data, parent, k - 1);
        let y = hits_one(src, a, data[k - 1], parent, k - 1);
        assert(hits_range(src, a, data, parent, k) == x + y);
    } else {
        let x = hits_range(src, a, data, parent, j);
        let y = hits_one(src, a, data[j], parent, j);
        assert(hits_range(src, a, data, parent, k) == x + y);
        assert(y[0] == LocV { node: data[j], parent, index: j });
    }
}

/// A node's anchor names it: the `line:hash` a read emits for a node
/// resolves, and what it resolves to starts on that line and hashes to that
/// hash. For a top-level node with no earlier same-line node of the same
/// hash, it resolves to that very node.
pub proof fn law_anchor_resolves_to_its_node(src: Seq<char>, data: Seq<Node>, j: int)
    requires
        0 <= j < data.len(),
    ensures
        ({
            let n = data[j];
            let a = AnchorV {
                line: node_line(src, n) as u32,
                hash: anchor_hash_spec(encode_utf8(node_text(src, n))),
                ordinal: None,
            };
            &&& node_line(src, n) <= u32::MAX ==> (resolve_spec(src, data, a) matches Some(l)
                && anchor_hit(src, a, l.node))
            &&& node_line(src, n) <= u32::MAX && hits_range(src, a, data, None, j).len() == 0
                ==> resolve_spec(src, data, a) == Some(LocV { node: n, parent: None, index: j })
        }),
{
    let n = data[j];
    let a = AnchorV {
        line: node_line(src, n) as u32,
        hash: anchor_hash_spec(encode_utf8(node_text(src, n))),
        ordinal: None,
    };
    if node_line(src, n) <= u32::MAX {
        assert(anchor_hit(src, a, n));
        lemma_hits_range_found(src, a, data, None, data.len() as int, j);
        lemma_hits_range_are_hits(src, a, data, None, data.len() as int);
        let hs = hits_range(src, a, data, None, data.len() as int);
        assert(anchor_hit(src, a, hs[0].node));
    }
}

/// What an anchor resolves to always starts on its line and hashes to its
/// hash.
pub proof fn law_resolved_node_matches_anchor(src: Seq<char>, data: Seq<Node>, a: AnchorV)
    ensures
        (resolve_spec(src, data, a) matches Some(l) ==> anchor_hit(src, a, l.node)),
{
    lemma_hits_range_are_hits(src, a, data, None, data.len() as int);
    let hs = hits_range(src, a, data, None, data.len() as int);
    if nth_match(a) < hs.len() {
        assert(anchor_hit(src, a, hs[nth_match(a)].node));
    }
}

} // verus!
