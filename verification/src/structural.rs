//! Structural (paredit-style) operations as byte-range edits.
//!
//! Each operation is a function from a node (and, where needed, its parent,
//! a sibling or the source) to a batch of [`Edit`]s applied via
//! [`crate::edit::splice`]. Nodes carry character offsets; the edits carry
//! the byte offsets of those characters (offsets past the source clamp to
//! its end). A list's opening delimiter is one character, or two for a set
//! `#{`, the one list shape the reader opens with `#`; its closing delimiter
//! is its last character.

use vstd::prelude::*;

use crate::edit::Edit;
use crate::format::{byte_of, node_string, node_text};
use crate::reader::{Node, Shape};
use crate::text::{push_char, seq_eq, string_of_range};

verus! {

/// An edit as a value: a byte range and its replacement text.
pub struct EditT {
    pub start: int,
    pub end: int,
    pub text: Seq<char>,
}

/// The edit replacing the characters `a..b` of `src` with `text`.
pub open spec fn et(src: Seq<char>, a: int, b: int, text: Seq<char>) -> EditT {
    EditT { start: byte_of(src, a), end: byte_of(src, b), text }
}

pub open spec fn edit_is(e: Edit, t: EditT) -> bool {
    e.range.start == t.start && e.range.end == t.end && e.text@ == t.text
}

/// Whether `es` are the edits `ts`, one for one.
pub open spec fn edits_are(es: Seq<Edit>, ts: Seq<EditT>) -> bool {
    &&& es.len() == ts.len()
    &&& forall|k: int| 0 <= k < es.len() ==> edit_is(#[trigger] es[k], ts[k])
}

/// `src[a..b]`, or empty when that is not a range of `src`.
pub open spec fn seg(src: Seq<char>, a: int, b: int) -> Seq<char> {
    if 0 <= a <= b <= src.len() {
        src.subrange(a, b)
    } else {
        Seq::empty()
    }
}

/// The width of a list's opening delimiter: 2 for `#{`, else 1.
pub open spec fn open_width(src: Seq<char>, n: Node) -> int {
    if n.start < src.len() && src[n.start as int] == '#' {
        2
    } else {
        1
    }
}

pub open spec fn open_text(src: Seq<char>, n: Node) -> Seq<char> {
    seg(src, n.start as int, n.start + open_width(src, n))
}

pub open spec fn close_text(src: Seq<char>, n: Node) -> Seq<char> {
    seg(src, n.end - 1, n.end as int)
}

/// `x` → `(prefix x)`: two insertions, so the node's own bytes stay.
pub open spec fn wrap_spec(src: Seq<char>, n: Node, prefix: Seq<char>) -> Seq<EditT> {
    let open = if prefix.len() == 0 {
        "("@
    } else {
        "("@ + prefix + " "@
    };
    seq![et(src, n.start as int, n.start as int, open), et(src, n.end as int, n.end as int, ")"@)]
}

/// The parent's whole span replaced by the child's text.
pub open spec fn raise_spec(src: Seq<char>, parent: Node, child: Node) -> Seq<EditT> {
    seq![et(src, parent.start as int, parent.end as int, node_text(src, child))]
}

/// A list's span replaced by what lies between its delimiters.
pub open spec fn splice_list_spec(src: Seq<char>, n: Node) -> Option<Seq<EditT>> {
    if n.shape == Shape::List {
        Some(
            seq![
                et(
                    src,
                    n.start as int,
                    n.end as int,
                    seg(src, n.start + open_width(src, n), n.end - 1),
                ),
            ],
        )
    } else {
        None
    }
}

/// The closing delimiter moved past the next sibling.
pub open spec fn slurp_forward_spec(src: Seq<char>, n: Node, next: Node) -> Option<Seq<EditT>> {
    if n.shape == Shape::List {
        Some(
            seq![
                et(src, n.end - 1, n.end as int, Seq::empty()),
                et(src, next.end as int, next.end as int, close_text(src, n)),
            ],
        )
    } else {
        None
    }
}

/// The opening delimiter moved before the previous sibling.
pub open spec fn slurp_backward_spec(src: Seq<char>, n: Node, prev: Node) -> Option<Seq<EditT>> {
    if n.shape == Shape::List {
        Some(
            seq![
                et(src, prev.start as int, prev.start as int, open_text(src, n)),
                et(src, n.start as int, n.start + open_width(src, n), Seq::empty()),
            ],
        )
    } else {
        None
    }
}

/// The closing delimiter moved in before the last element.
pub open spec fn barf_forward_spec(src: Seq<char>, n: Node) -> Option<Seq<EditT>> {
    let items = n.items@;
    if n.shape == Shape::List && items.len() > 0 {
        let at = if items.len() >= 2 {
            items[items.len() - 2].end as int
        } else {
            n.start + open_width(src, n)
        };
        Some(seq![et(src, at, at, close_text(src, n)), et(src, n.end - 1, n.end as int, Seq::empty())])
    } else {
        None
    }
}

/// The opening delimiter moved in after the first element.
pub open spec fn barf_backward_spec(src: Seq<char>, n: Node) -> Option<Seq<EditT>> {
    let items = n.items@;
    if n.shape == Shape::List && items.len() > 0 {
        let at = if items.len() >= 2 {
            items[1].start as int
        } else {
            n.end - 1
        };
        Some(
            seq![
                et(src, n.start as int, n.start + open_width(src, n), Seq::empty()),
                et(src, at, at, open_text(src, n)),
            ],
        )
    } else {
        None
    }
}

/// The list divided after its `index`-th element: `(a b)` @0 → `(a) (b)`.
pub open spec fn split_spec(src: Seq<char>, n: Node, index: int) -> Option<Seq<EditT>> {
    let items = n.items@;
    if n.shape == Shape::List && 0 <= index && index + 1 < items.len() {
        let a = items[index].end as int;
        let b = items[index + 1].start as int;
        Some(seq![et(src, a, a, close_text(src, n)), et(src, b, b, open_text(src, n))])
    } else {
        None
    }
}

/// Two lists merged: the first's closing and the second's opening
/// delimiter removed.
pub open spec fn join_spec(src: Seq<char>, a: Node, b: Node) -> Option<Seq<EditT>> {
    if a.shape == Shape::List && b.shape == Shape::List {
        Some(
            seq![
                et(src, a.end - 1, a.end as int, Seq::empty()),
                et(src, b.start as int, b.start + open_width(src, b), Seq::empty()),
            ],
        )
    } else {
        None
    }
}

/// The renames among `data[..k]`.
pub open spec fn rename_range(src: Seq<char>, from: Seq<char>, to: Seq<char>, data: Seq<Node>, k: int) -> Seq<EditT>
    decreases data, k,
{
    if k <= 0 || k > data.len() {
        Seq::empty()
    } else {
        rename_range(src, from, to, data, k - 1) + rename_in(src, from, to, data[k - 1])
    }
}

pub open spec fn rename_opt(src: Seq<char>, from: Seq<char>, to: Seq<char>, n: Option<Box<Node>>) -> Seq<EditT>
    decreases n, 1int,
{
    match n {
        Some(c) => rename_in(src, from, to, *c),
        None => Seq::empty(),
    }
}

/// Every symbol of the subtree of `n` whose text is `from`, replaced by
/// `to`: through list items and a dotted tail, a reader macro's auxiliary
/// datum and target, and the datum of a `#tag` form or label.
pub open spec fn rename_in(src: Seq<char>, from: Seq<char>, to: Seq<char>, n: Node) -> Seq<EditT>
    decreases n, 0int,
{
    match n.shape {
        Shape::Symbol => if node_text(src, n) == from {
            seq![et(src, n.start as int, n.end as int, to)]
        } else {
            Seq::empty()
        },
        Shape::List => rename_range(src, from, to, n.items@, n.items@.len() as int) + rename_opt(
            src,
            from,
            to,
            n.tail,
        ),
        Shape::Prefixed => rename_opt(src, from, to, n.arg) + rename_opt(src, from, to, n.inner),
        Shape::HashLiteral | Shape::Label => rename_opt(src, from, to, n.inner),
        _ => Seq::empty(),
    }
}

/// The characters of `source`, and the byte offset of each character and
/// of the end: what the operations below take to place their edits.
pub fn source_map(source: &str) -> (r: (Vec<char>, Vec<usize>))
    ensures
        r.0@ == source@,
        byte_table_of(r.0@, r.1@),
{
    let cs = crate::text::chars_of(source);
    let bt = crate::format::byte_table(cs.as_slice());
    (cs, bt)
}

/// Whether `bt` maps each character offset of `cs` to its byte offset.
pub open spec fn byte_table_of(cs: Seq<char>, bt: Seq<usize>) -> bool {
    &&& bt.len() == cs.len() + 1
    &&& forall|i: int| 0 <= i <= cs.len() ==> bt[i] == byte_of(cs, i)
}

/// The byte offset of character `i` (clamped to the end).
pub(crate) fn bpos_of(cs: &[char], bt: &Vec<usize>, i: usize) -> (r: usize)
    requires
        byte_table_of(cs@, bt@),
    ensures
        r == byte_of(cs@, i as int),
{
    bpos(cs, bt, i)
}

fn bpos(cs: &[char], bt: &Vec<usize>, i: usize) -> (r: usize)
    requires
        byte_table_of(cs@, bt@),
    ensures
        r == byte_of(cs@, i as int),
{
    if i <= cs.len() {
        bt[i]
    } else {
        bt[cs.len()]
    }
}

/// The edit replacing characters `a..b` with `text`.
pub(crate) fn edit_at(cs: &[char], bt: &Vec<usize>, a: usize, b: usize, text: String) -> (e: Edit)
    requires
        byte_table_of(cs@, bt@),
    ensures
        edit_is(e, et(cs@, a as int, b as int, text@)),
{
    let s = bpos(cs, bt, a);
    let t = bpos(cs, bt, b);
    Edit { range: s..t, text }
}

/// `n.end - 1` as a character offset, 0 for an empty span at 0.
fn before_end(cs: &[char], n: &Node) -> (r: usize)
    ensures
        byte_of(cs@, r as int) == byte_of(cs@, n.end - 1),
        r == (if n.end == 0 {
            0
        } else {
            n.end - 1
        }),
{
    if n.end == 0 {
        0
    } else {
        n.end - 1
    }
}

pub(crate) fn seg_string(cs: &[char], a: usize, b: usize) -> (s: String)
    ensures
        s@ == seg(cs@, a as int, b as int),
{
    if a <= b && b <= cs.len() {
        string_of_range(cs, a, b)
    } else {
        String::new()
    }
}

fn open_width_exec(cs: &[char], n: &Node) -> (w: usize)
    ensures
        w == open_width(cs@, *n),
{
    if n.start < cs.len() && cs[n.start] == '#' {
        2
    } else {
        1
    }
}

fn open_string(cs: &[char], n: &Node) -> (s: String)
    ensures
        s@ == open_text(cs@, *n),
{
    let w = open_width_exec(cs, n);
    let len = cs.len();
    assert(len == cs@.len());
    if n.start <= usize::MAX - w {
        seg_string(cs, n.start, n.start + w)
    } else {
        String::new()
    }
}

fn close_string(cs: &[char], n: &Node) -> (s: String)
    ensures
        s@ == close_text(cs@, *n),
{
    if n.end >= 1 {
        seg_string(cs, n.end - 1, n.end)
    } else {
        String::new()
    }
}

fn is_list(n: &Node) -> (b: bool)
    ensures
        b == (n.shape == Shape::List),
{
    match n.shape {
        Shape::List => true,
        _ => false,
    }
}

/// Wrap `n` in a new enclosing list: `x` → `(prefix x)`; an empty `prefix`
/// gives a bare `(x)`.
pub fn wrap(cs: &[char], bt: &Vec<usize>, n: &Node, prefix: &str) -> (r: Vec<Edit>)
    requires
        byte_table_of(cs@, bt@),
    ensures
        edits_are(r@, wrap_spec(cs@, *n, prefix@)),
{
    let mut open = String::from_str("(");
    proof {
        reveal_strlit("(");
        reveal_strlit(" ");
        reveal_strlit(")");
    }
    let pc = crate::text::chars_of(prefix);
    if pc.len() > 0 {
        open.append(prefix);
        push_char(&mut open, ' ');
    }
    let ghost want = wrap_spec(cs@, *n, prefix@);
    assert(open@ == want[0].text);
    let mut r: Vec<Edit> = Vec::new();
    r.push(edit_at(cs, bt, n.start, n.start, open));
    r.push(edit_at(cs, bt, n.end, n.end, String::from_str(")")));
    assert(edit_is(r@[0], want[0]));
    assert(edit_is(r@[1], want[1]));
    r
}

/// Raise `child` into its `parent`'s place, discarding the parent's other
/// children: `(when cond x)` → `x`.
pub fn raise(cs: &[char], bt: &Vec<usize>, parent: &Node, child: &Node) -> (r: Vec<Edit>)
    requires
        byte_table_of(cs@, bt@),
    ensures
        edits_are(r@, raise_spec(cs@, *parent, *child)),
{
    let mut r: Vec<Edit> = Vec::new();
    r.push(edit_at(cs, bt, parent.start, parent.end, node_string(cs, child)));
    r
}

/// Splice a list: remove its delimiters, keeping its contents in the
/// parent. `None` if `n` is not a list.
pub fn splice(cs: &[char], bt: &Vec<usize>, n: &Node) -> (r: Option<Vec<Edit>>)
    requires
        byte_table_of(cs@, bt@),
    ensures
        match r {
            Some(es) => splice_list_spec(cs@, *n) matches Some(ts) && edits_are(es@, ts),
            None => splice_list_spec(cs@, *n) is None,
        },
{
    if !is_list(n) {
        return None;
    }
    let w = open_width_exec(cs, n);
    let a = n.start.saturating_add(w);
    let b = before_end(cs, n);
    let inner = seg_string(cs, a, b);
    assert(inner@ == seg(cs@, n.start + open_width(cs@, *n), n.end - 1));
    let mut r: Vec<Edit> = Vec::new();
    r.push(edit_at(cs, bt, n.start, n.end, inner));
    Some(r)
}

/// Slurp forward: move `n`'s closing delimiter past `next`, its next
/// sibling. `None` if `n` is not a list.
pub fn slurp_forward(cs: &[char], bt: &Vec<usize>, n: &Node, next: &Node) -> (r: Option<Vec<Edit>>)
    requires
        byte_table_of(cs@, bt@),
    ensures
        match r {
            Some(es) => slurp_forward_spec(cs@, *n, *next) matches Some(ts) && edits_are(es@, ts),
            None => slurp_forward_spec(cs@, *n, *next) is None,
        },
{
    if !is_list(n) {
        return None;
    }
    let b = before_end(cs, n);
    let mut r: Vec<Edit> = Vec::new();
    r.push(edit_at(cs, bt, b, n.end, String::new()));
    r.push(edit_at(cs, bt, next.end, next.end, close_string(cs, n)));
    Some(r)
}

/// Slurp backward: move `n`'s opening delimiter before `prev`, its previous
/// sibling. `None` if `n` is not a list.
pub fn slurp_backward(cs: &[char], bt: &Vec<usize>, n: &Node, prev: &Node) -> (r: Option<Vec<Edit>>)
    requires
        byte_table_of(cs@, bt@),
    ensures
        match r {
            Some(es) => slurp_backward_spec(cs@, *n, *prev) matches Some(ts) && edits_are(es@, ts),
            None => slurp_backward_spec(cs@, *n, *prev) is None,
        },
{
    if !is_list(n) {
        return None;
    }
    let w = open_width_exec(cs, n);
    let a = n.start.saturating_add(w);
    let ghost want = n.start + open_width(cs@, *n);
    let len = cs.len();
    assert(len == cs@.len());
    assert(byte_of(cs@, a as int) == byte_of(cs@, want));
    let mut r: Vec<Edit> = Vec::new();
    r.push(edit_at(cs, bt, prev.start, prev.start, open_string(cs, n)));
    r.push(edit_at(cs, bt, n.start, a, String::new()));
    Some(r)
}

/// Barf forward: move `n`'s closing delimiter in before its last element.
/// `None` if `n` is not a list or is empty.
pub fn barf_forward(cs: &[char], bt: &Vec<usize>, n: &Node) -> (r: Option<Vec<Edit>>)
    requires
        byte_table_of(cs@, bt@),
    ensures
        match r {
            Some(es) => barf_forward_spec(cs@, *n) matches Some(ts) && edits_are(es@, ts),
            None => barf_forward_spec(cs@, *n) is None,
        },
{
    let len = n.items.len();
    if !is_list(n) || len == 0 {
        return None;
    }
    let at = if len >= 2 {
        n.items[len - 2].end
    } else {
        n.start.saturating_add(open_width_exec(cs, n))
    };
    let ghost want = if len >= 2 {
        n.items@[len - 2].end as int
    } else {
        n.start + open_width(cs@, *n)
    };
    let len = cs.len();
    assert(len == cs@.len());
    assert(byte_of(cs@, at as int) == byte_of(cs@, want));
    let b = before_end(cs, n);
    let mut r: Vec<Edit> = Vec::new();
    r.push(edit_at(cs, bt, at, at, close_string(cs, n)));
    r.push(edit_at(cs, bt, b, n.end, String::new()));
    Some(r)
}

/// Barf backward: move `n`'s opening delimiter in after its first element.
/// `None` if `n` is not a list or is empty.
pub fn barf_backward(cs: &[char], bt: &Vec<usize>, n: &Node) -> (r: Option<Vec<Edit>>)
    requires
        byte_table_of(cs@, bt@),
    ensures
        match r {
            Some(es) => barf_backward_spec(cs@, *n) matches Some(ts) && edits_are(es@, ts),
            None => barf_backward_spec(cs@, *n) is None,
        },
{
    let len = n.items.len();
    if !is_list(n) || len == 0 {
        return None;
    }
    let at = if len >= 2 {
        n.items[1].start
    } else {
        before_end(cs, n)
    };
    let ghost want = if len >= 2 {
        n.items@[1].start as int
    } else {
        n.end - 1
    };
    assert(byte_of(cs@, at as int) == byte_of(cs@, want));
    let w = open_width_exec(cs, n);
    let a = n.start.saturating_add(w);
    let len = cs.len();
    assert(len == cs@.len());
    assert(byte_of(cs@, a as int) == byte_of(cs@, n.start + open_width(cs@, *n)));
    let mut r: Vec<Edit> = Vec::new();
    r.push(edit_at(cs, bt, n.start, a, String::new()));
    r.push(edit_at(cs, bt, at, at, open_string(cs, n)));
    Some(r)
}

/// Split `n` after its `index`-th element: `(a b)` at 0 → `(a) (b)`.
/// `None` if `n` is not a list or has no element after `index`.
pub fn split(cs: &[char], bt: &Vec<usize>, n: &Node, index: usize) -> (r: Option<Vec<Edit>>)
    requires
        byte_table_of(cs@, bt@),
    ensures
        match r {
            Some(es) => split_spec(cs@, *n, index as int) matches Some(ts) && edits_are(es@, ts),
            None => split_spec(cs@, *n, index as int) is None,
        },
{
    if !is_list(n) || index >= n.items.len() || index + 1 >= n.items.len() {
        return None;
    }
    let a = n.items[index].end;
    let b = n.items[index + 1].start;
    let mut r: Vec<Edit> = Vec::new();
    r.push(edit_at(cs, bt, a, a, close_string(cs, n)));
    r.push(edit_at(cs, bt, b, b, open_string(cs, n)));
    Some(r)
}

/// Join two lists into the first: `(a) (b)` → `(a b)`. `None` unless both
/// are lists.
pub fn join(cs: &[char], bt: &Vec<usize>, a: &Node, b: &Node) -> (r: Option<Vec<Edit>>)
    requires
        byte_table_of(cs@, bt@),
    ensures
        match r {
            Some(es) => join_spec(cs@, *a, *b) matches Some(ts) && edits_are(es@, ts),
            None => join_spec(cs@, *a, *b) is None,
        },
{
    if !is_list(a) || !is_list(b) {
        return None;
    }
    let e = before_end(cs, a);
    let w = open_width_exec(cs, b);
    let s = b.start.saturating_add(w);
    let len = cs.len();
    assert(len == cs@.len());
    assert(byte_of(cs@, s as int) == byte_of(cs@, b.start + open_width(cs@, *b)));
    let mut r: Vec<Edit> = Vec::new();
    r.push(edit_at(cs, bt, e, a.end, String::new()));
    r.push(edit_at(cs, bt, b.start, s, String::new()));
    Some(r)
}

fn rename_opt_exec(cs: &[char], bt: &Vec<usize>, from: &[char], to: &str, n: &Option<Box<Node>>, out: &mut Vec<Edit>)
    requires
        byte_table_of(cs@, bt@),
    ensures
        forall|o: Seq<EditT>|
            edits_are(old(out)@, o) ==> edits_are(final(out)@, o + rename_opt(cs@, from@, to@, *n)),
    decreases *n, 1int,
{
    match n {
        Some(c) => {
            rename_node(cs, bt, from, to, c, out);
        },
        None => {
            assert forall|o: Seq<EditT>| edits_are(old(out)@, o) implies edits_are(
                out@,
                o + rename_opt(cs@, from@, to@, *n),
            ) by {
                assert(o + Seq::<EditT>::empty() == o);
            }
        },
    }
}

fn rename_node(cs: &[char], bt: &Vec<usize>, from: &[char], to: &str, n: &Node, out: &mut Vec<Edit>)
    requires
        byte_table_of(cs@, bt@),
    ensures
        forall|o: Seq<EditT>|
            edits_are(old(out)@, o) ==> edits_are(final(out)@, o + rename_in(cs@, from@, to@, *n)),
    decreases *n, 0int,
{
    let ghost before = old(out)@;
    match n.shape {
        Shape::Symbol => {
            let t = node_string(cs, n);
            let tc = crate::text::chars_of(t.as_str());
            if seq_eq(tc.as_slice(), from) {
                out.push(edit_at(cs, bt, n.start, n.end, String::from_str(to)));
            }
            assert forall|o: Seq<EditT>| edits_are(before, o) implies edits_are(
                out@,
                o + rename_in(cs@, from@, to@, *n),
            ) by {
                let add = rename_in(cs@, from@, to@, *n);
                if add.len() == 0 {
                    assert(o + add == o);
                } else {
                    assert(out@.len() == before.len() + 1);
                    assert forall|k: int| 0 <= k < out@.len() implies edit_is(#[trigger] out@[k], (o + add)[k]) by {
                        if k < before.len() {
                            assert(out@[k] == before[k]);
                        }
                    }
                }
            }
        },
        Shape::List => {
            rename_range_any(cs, bt, from, to, n.items.as_slice(), out);
            let ghost mid = out@;
            rename_opt_exec(cs, bt, from, to, &n.tail, out);
            assert forall|o: Seq<EditT>| edits_are(before, o) implies edits_are(
                out@,
                o + rename_in(cs@, from@, to@, *n),
            ) by {
                let x = rename_range(cs@, from@, to@, n.items@, n.items@.len() as int);
                let y = rename_opt(cs@, from@, to@, n.tail);
                assert(edits_are(mid, o + x));
                assert(o + x + y == o + (x + y));
            }
        },
        Shape::Prefixed => {
            rename_opt_exec(cs, bt, from, to, &n.arg, out);
            let ghost mid = out@;
            rename_opt_exec(cs, bt, from, to, &n.inner, out);
            assert forall|o: Seq<EditT>| edits_are(before, o) implies edits_are(
                out@,
                o + rename_in(cs@, from@, to@, *n),
            ) by {
                let x = rename_opt(cs@, from@, to@, n.arg);
                let y = rename_opt(cs@, from@, to@, n.inner);
                assert(edits_are(mid, o + x));
                assert(o + x + y == o + (x + y));
            }
        },
        Shape::HashLiteral | Shape::Label => {
            rename_opt_exec(cs, bt, from, to, &n.inner, out);
        },
        _ => {
            assert forall|o: Seq<EditT>| edits_are(before, o) implies edits_are(
                out@,
                o + rename_in(cs@, from@, to@, *n),
            ) by {
                assert(o + Seq::<EditT>::empty() == o);
            }
        },
    }
}

pub(crate) fn rename_range_any(cs: &[char], bt: &Vec<usize>, from: &[char], to: &str, data: &[Node], out: &mut Vec<Edit>)
    requires
        byte_table_of(cs@, bt@),
    ensures
        forall|o: Seq<EditT>|
            edits_are(old(out)@, o) ==> edits_are(
                final(out)@,
                o + rename_range(cs@, from@, to@, data@, data@.len() as int),
            ),
    decreases data@, 2int,
{
    let ghost before = old(out)@;
    let mut k: usize = 0;
    assert forall|o: Seq<EditT>| edits_are(before, o) implies edits_are(
        out@,
        o + rename_range(cs@, from@, to@, data@, 0),
    ) by {
        assert(o + Seq::<EditT>::empty() == o);
    }
    while k < data.len()
        invariant
            byte_table_of(cs@, bt@),
            k <= data@.len(),
            forall|o: Seq<EditT>|
                edits_are(before, o) ==> edits_are(out@, o + rename_range(cs@, from@, to@, data@, k as int)),
        decreases data.len() - k,
    {
        let ghost mid = out@;
        rename_node(cs, bt, from, to, &data[k], out);
        assert forall|o: Seq<EditT>| edits_are(before, o) implies edits_are(
            out@,
            o + rename_range(cs@, from@, to@, data@, k + 1),
        ) by {
            let x = rename_range(cs@, from@, to@, data@, k as int);
            let y = rename_in(cs@, from@, to@, data@[k as int]);
            assert(edits_are(mid, o + x));
            assert(rename_range(cs@, from@, to@, data@, k + 1) == x + y);
            assert(o + x + y == o + (x + y));
        }
        k = k + 1;
    }
}

/// Rename every symbol `from` in the subtree of `n` to `to`.
pub fn rename(cs: &[char], bt: &Vec<usize>, n: &Node, from: &str, to: &str) -> (r: Vec<Edit>)
    requires
        byte_table_of(cs@, bt@),
    ensures
        edits_are(r@, rename_in(cs@, from@, to@, *n)),
{
    let fc = crate::text::chars_of(from);
    let mut r: Vec<Edit> = Vec::new();
    assert(edits_are(r@, Seq::<EditT>::empty()));
    rename_node(cs, bt, fc.as_slice(), to, n, &mut r);
    assert(edits_are(r@, Seq::<EditT>::empty() + rename_in(cs@, from@, to@, *n)));
    assert(Seq::<EditT>::empty() + rename_in(cs@, from@, to@, *n) == rename_in(cs@, from@, to@, *n));
    r
}

} // verus!
