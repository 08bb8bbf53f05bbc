//! Applying a batch of edits as **non-overlapping byte-range replacements**
//! against a single snapshot (one snapshot, all-or-nothing).
//!
//! Line-hash edits map line ranges to byte ranges (here), and Structural edits
//! map node spans to byte ranges. Line spans are computed **including their
//! terminator**, so edits are byte-exact and reversible.

use std::ops::Range;

use vstd::prelude::*;
use vstd::utf8::{encode_utf8, is_char_boundary};
use vstd::string::{StringExecFns, StringSliceAdditionalSpecFns};

use crate::text::{byte_pos, byte_pos_exec, lemma_byte_pos};

verus! {

/// A single replacement: substitute `text` for the bytes in `range` of the
/// original source. An empty `range` (`start == end`) is a pure insertion; an
/// empty `text` is a deletion.
#[derive(Debug, PartialEq, Eq)]
pub struct Edit {
    /// Byte range in the original source to replace.
    pub range: Range<usize>,
    /// Replacement text.
    pub text: String,
}

/// Why a [`splice`] was rejected.
#[derive(Debug, Clone, Copy, PartialEq, Eq, Structural)]
pub enum SpliceError {
    /// Two edits target overlapping byte ranges.
    Overlap,
    /// An edit range is inverted, past end-of-source, or not on a char boundary.
    OutOfBounds,
}

/// Whether text `a` sorts no later than `b`: character by character (by
/// code point), a prefix first.
pub open spec fn text_le(a: Seq<char>, b: Seq<char>) -> bool
    decreases a.len(),
{
    if a.len() == 0 {
        true
    } else if b.len() == 0 {
        false
    } else if a[0] != b[0] {
        (a[0] as u32) < (b[0] as u32)
    } else {
        text_le(a.drop_first(), b.drop_first())
    }
}

/// Whether `a` sorts no later than `b` by `(start, end, text)`: edits of one
/// range (insertions at one offset) are ordered by their text, so the order
/// of a batch never depends on the order it was given in.
pub open spec fn key_le(a: Edit, b: Edit) -> bool {
    a.range.start < b.range.start || (a.range.start == b.range.start && (a.range.end < b.range.end
        || (a.range.end == b.range.end && text_le(a.text@, b.text@))))
}

/// Whether `a` sorts no later than `b` by text (see [`text_le`]).
pub(crate) fn text_le_exec(a: &[char], b: &[char]) -> (r: bool)
    ensures
        r == text_le(a@, b@),
{
    let mut i: usize = 0;
    assert(a@.skip(0) == a@ && b@.skip(0) == b@);
    while i < a.len() && i < b.len() && a[i] == b[i]
        invariant
            i <= a@.len(),
            i <= b@.len(),
            text_le(a@, b@) == text_le(a@.skip(i as int), b@.skip(i as int)),
        decreases a.len() - i,
    {
        proof {
            assert(a@.skip(i as int).drop_first() == a@.skip(i + 1));
            assert(b@.skip(i as int).drop_first() == b@.skip(i + 1));
        }
        i = i + 1;
    }
    if i == a.len() {
        true
    } else if i == b.len() {
        false
    } else {
        (a[i] as u32) < (b[i] as u32)
    }
}

/// Whether `a` sorts no later than `b` (see [`key_le`]).
fn edit_le(a: &Edit, b: &Edit) -> (r: bool)
    ensures
        r == key_le(*a, *b),
{
    if a.range.start != b.range.start {
        a.range.start < b.range.start
    } else if a.range.end != b.range.end {
        a.range.end < b.range.end
    } else {
        let x = crate::text::chars_of(a.text.as_str());
        let y = crate::text::chars_of(b.text.as_str());
        text_le_exec(x.as_slice(), y.as_slice())
    }
}

/// Insert `e` into sorted `s` after every edit whose key is no greater.
pub open spec fn insert_sorted(s: Seq<Edit>, e: Edit) -> Seq<Edit>
    decreases s.len(),
{
    if s.len() == 0 {
        seq![e]
    } else if key_le(s.last(), e) {
        s.push(e)
    } else {
        insert_sorted(s.drop_last(), e).push(s.last())
    }
}

/// `s` sorted by `(start, end, text)`.
pub open spec fn sort_edits(s: Seq<Edit>) -> Seq<Edit>
    decreases s.len(),
{
    if s.len() == 0 {
        s
    } else {
        insert_sorted(sort_edits(s.drop_last()), s.last())
    }
}

/// Whether `e` is inverted, past the end of `bytes`, or off a char boundary.
pub open spec fn out_of_bounds(bytes: Seq<u8>, e: Edit) -> bool {
    e.range.start > e.range.end || e.range.end > bytes.len() || !is_char_boundary(
        bytes,
        e.range.start as int,
    ) || !is_char_boundary(bytes, e.range.end as int)
}

/// Splice the sorted `edits[k..]` into `bytes`, the previous edit having
/// ended at `cursor`.
pub open spec fn splice_from(bytes: Seq<u8>, edits: Seq<Edit>, k: int, cursor: int) -> Result<
    Seq<u8>,
    SpliceError,
>
    decreases edits.len() - k,
{
    if k < 0 || k >= edits.len() {
        Ok(bytes.subrange(cursor, bytes.len() as int))
    } else {
        let e = edits[k];
        if out_of_bounds(bytes, e) {
            Err(SpliceError::OutOfBounds)
        } else if e.range.start < cursor {
            Err(SpliceError::Overlap)
        } else {
            match splice_from(bytes, edits, k + 1, e.range.end as int) {
                Ok(rest) => Ok(
                    bytes.subrange(cursor, e.range.start as int) + encode_utf8(e.text@) + rest,
                ),
                Err(x) => Err(x),
            }
        }
    }
}

/// The bytes of `source` with `edits` applied, each against the original
/// offsets, in `(start, end)` order; the first bad range (in that order)
/// rejects the whole batch.
pub open spec fn splice_spec(bytes: Seq<u8>, edits: Seq<Edit>) -> Result<Seq<u8>, SpliceError> {
    splice_from(bytes, sort_edits(edits), 0, 0)
}

/// `&s[a..b]`.
#[verifier::external_body]
fn substr(s: &str, a: usize, b: usize) -> (r: &str)
    requires
        a <= b <= s.spec_bytes().len(),
        is_char_boundary(s.spec_bytes(), a as int),
        is_char_boundary(s.spec_bytes(), b as int),
    ensures
        r.spec_bytes() == s.spec_bytes().subrange(a as int, b as int),
{
    &s[a..b]
}

pub proof fn lemma_encode_concat(a: Seq<char>, b: Seq<char>)
    ensures
        encode_utf8(a + b) == encode_utf8(a) + encode_utf8(b),
    decreases a.len(),
{
    if a.len() > 0 {
        lemma_encode_concat(a.drop_first(), b);
        assert((a + b).drop_first() == a.drop_first() + b);
    } else {
        assert(a + b == b);
    }
}

/// Insert `e` into sorted `sorted` (see [`insert_sorted`]).
fn insert_edit(sorted: &mut Vec<Edit>, e: Edit)
    ensures
        final(sorted)@ == insert_sorted(old(sorted)@, e),
{
    let mut p = sorted.len();
    assert(sorted@.subrange(0, p as int) == sorted@);
    assert(insert_sorted(sorted@, e) == insert_sorted(sorted@.subrange(0, p as int), e)
        + sorted@.subrange(p as int, sorted@.len() as int));
    while p > 0 && !edit_le(&sorted[p - 1], &e)
        invariant
            p <= sorted@.len(),
            sorted@ == old(sorted)@,
            insert_sorted(sorted@, e) == insert_sorted(sorted@.subrange(0, p as int), e)
                + sorted@.subrange(p as int, sorted@.len() as int),
        decreases p,
    {
        let ghost s = sorted@.subrange(0, p as int);
        assert(s.drop_last() == sorted@.subrange(0, p - 1));
        assert(s.last() == sorted@[p - 1]);
        assert(seq![sorted@[p - 1]] + sorted@.subrange(p as int, sorted@.len() as int)
            == sorted@.subrange(p - 1, sorted@.len() as int));
        p = p - 1;
    }
    proof {
        let s = sorted@.subrange(0, p as int);
        if p > 0 {
            assert(s.last() == sorted@[p - 1]);
        }
        assert(insert_sorted(s, e) == s.push(e));
    }
    sorted.insert(p, e);
    assert(sorted@ == old(sorted)@.subrange(0, p as int).push(e) + old(sorted)@.subrange(
        p as int,
        old(sorted)@.len() as int,
    ));
}

/// Apply `edits` to `source` as non-overlapping byte-range replacements, all
/// resolved against the **original** offsets. `edits` order is irrelevant —
/// they are sorted by `(start, end)`, insertions at one offset by their text
/// — and the whole batch is all-or-nothing: any overlap or bad range rejects
/// the entire batch.
pub fn splice(source: &str, edits: Vec<Edit>) -> (r: Result<String, SpliceError>)
    ensures
        match r {
            Ok(s) => splice_spec(source.spec_bytes(), edits@) == Ok::<Seq<u8>, SpliceError>(
                encode_utf8(s@),
            ),
            Err(x) => splice_spec(source.spec_bytes(), edits@) == Err::<Seq<u8>, SpliceError>(x),
        },
{
    let ghost all = edits@;
    assert(all.len() == edits.len());
    let mut rest = edits;
    let mut sorted: Vec<Edit> = Vec::new();
    let mut i: usize = 0;
    while rest.len() > 0
        invariant
            all.len() <= usize::MAX,
            i + rest@.len() == all.len(),
            rest@ == all.subrange(i as int, all.len() as int),
            sorted@ == sort_edits(all.subrange(0, i as int)),
        decreases rest@.len(),
    {
        let e = rest.remove(0);
        proof {
            assert(all.subrange(0, i + 1).drop_last() == all.subrange(0, i as int));
            assert(all.subrange(0, i + 1).last() == e);
        }
        insert_edit(&mut sorted, e);
        i = i + 1;
    }
    assert(all.subrange(0, all.len() as int) == all);
    let ghost bytes = source.spec_bytes();
    let sb = source.as_bytes();
    let n = sb.len();
    assert(n == bytes.len());
    let mut out = String::new();
    let mut cursor: usize = 0;
    let mut k: usize = 0;
    proof {
        vstd::utf8::encode_utf8_valid_utf8(source@);
        vstd::utf8::is_char_boundary_start_end_of_seq(bytes);
        assert(encode_utf8(out@) =~= Seq::<u8>::empty());
        assert(encode_utf8(out@) + bytes.subrange(0, 0) =~= Seq::<u8>::empty());
    }
    while k < sorted.len()
        invariant
            sorted@ == sort_edits(all),
            all == edits@,
            bytes == source.spec_bytes(),
            n == bytes.len(),
            k <= sorted@.len(),
            cursor <= n,
            is_char_boundary(bytes, cursor as int),
            splice_spec(bytes, all) == match splice_from(bytes, sorted@, k as int, cursor as int) {
                Ok(rest) => Ok(encode_utf8(out@) + rest),
                Err(x) => Err(x),
            },
        decreases sorted.len() - k,
    {
        let start = sorted[k].range.start;
        let end = sorted[k].range.end;
        if start > end || end > n || !source.is_char_boundary(start) || !source.is_char_boundary(
            end,
        ) {
            return Err(SpliceError::OutOfBounds);
        }
        if start < cursor {
            return Err(SpliceError::Overlap);
        }
        let ghost before = out@;
        let piece = substr(source, cursor, start);
        out.append(piece);
        out.append(sorted[k].text.as_str());
        proof {
            lemma_encode_concat(before, piece@);
            lemma_encode_concat(before + piece@, sorted@[k as int].text@);
            assert(encode_utf8(out@) == encode_utf8(before) + bytes.subrange(
                cursor as int,
                start as int,
            ) + encode_utf8(sorted@[k as int].text@));
            match splice_from(bytes, sorted@, k + 1, end as int) {
                Ok(rest) => {
                    assert(encode_utf8(before) + (bytes.subrange(cursor as int, start as int)
                        + encode_utf8(sorted@[k as int].text@) + rest) =~= encode_utf8(out@)
                        + rest);
                },
                Err(x) => {},
            }
        }
        cursor = end;
        k = k + 1;
    }
    let ghost before = out@;
    let piece = substr(source, cursor, n);
    out.append(piece);
    proof {
        lemma_encode_concat(before, piece@);
        assert(encode_utf8(before) + bytes.subrange(cursor as int, n as int) == encode_utf8(out@));
    }
    Ok(out)
}

/// An empty batch leaves the bytes as they are.
pub proof fn law_splice_no_edits(bytes: Seq<u8>)
    ensures
        splice_spec(bytes, Seq::empty()) == Ok::<Seq<u8>, SpliceError>(bytes),
{
    assert(sort_edits(Seq::<Edit>::empty()) == Seq::<Edit>::empty());
    assert(bytes.subrange(0, bytes.len() as int) == bytes);
}

proof fn lemma_text_le_total(a: Seq<char>, b: Seq<char>)
    ensures
        text_le(a, b) || text_le(b, a),
        text_le(a, b) && text_le(b, a) ==> a == b,
    decreases a.len(),
{
    if a.len() > 0 && b.len() > 0 {
        if a[0] == b[0] {
            lemma_text_le_total(a.drop_first(), b.drop_first());
            if text_le(a, b) && text_le(b, a) {
                assert(a == seq![a[0]] + a.drop_first());
                assert(b == seq![b[0]] + b.drop_first());
            }
        } else {
            vstd::utf8::char_u32_cast(a[0], a[0] as u32);
            vstd::utf8::char_u32_cast(b[0], b[0] as u32);
            assert((a[0] as u32) != (b[0] as u32));
        }
    } else if a.len() == 0 && b.len() == 0 {
        assert(a == b);
    }
}

proof fn lemma_insert_sorted_multiset(s: Seq<Edit>, e: Edit)
    ensures
        insert_sorted(s, e).to_multiset() == s.to_multiset().insert(e),
    decreases s.len(),
{
    broadcast use vstd::multiset::group_multiset_axioms;

    vstd::seq_lib::to_multiset_build(s, e);
    if s.len() == 0 {
        assert(insert_sorted(s, e) == s.push(e));
    } else if key_le(s.last(), e) {
        assert(insert_sorted(s, e) == s.push(e));
    } else {
        let d = s.drop_last();
        lemma_insert_sorted_multiset(d, e);
        vstd::seq_lib::to_multiset_build(insert_sorted(d, e), s.last());
        vstd::seq_lib::to_multiset_build(d, s.last());
        assert(d.push(s.last()) == s);
        assert(d.to_multiset().insert(e).insert(s.last()) =~= d.to_multiset().insert(s.last()).insert(e));
    }
}

/// Sorting a batch neither drops nor adds an edit: the sorted batch is a
/// permutation of the batch.
pub proof fn law_sorted_batch_is_a_permutation(es: Seq<Edit>)
    ensures
        sort_edits(es).to_multiset() == es.to_multiset(),
    decreases es.len(),
{
    if es.len() > 0 {
        let d = es.drop_last();
        law_sorted_batch_is_a_permutation(d);
        lemma_insert_sorted_multiset(sort_edits(d), es.last());
        vstd::seq_lib::to_multiset_build(d, es.last());
        assert(d.push(es.last()) == es);
    }
}

proof fn lemma_text_le_trans(a: Seq<char>, b: Seq<char>, c: Seq<char>)
    requires
        text_le(a, b),
        text_le(b, c),
    ensures
        text_le(a, c),
    decreases a.len(),
{
    if a.len() > 0 && b.len() > 0 && c.len() > 0 && a[0] == b[0] && b[0] == c[0] {
        lemma_text_le_trans(a.drop_first(), b.drop_first(), c.drop_first());
    }
}

proof fn lemma_key_le_trans(x: Edit, y: Edit, z: Edit)
    requires
        key_le(x, y),
        key_le(y, z),
    ensures
        key_le(x, z),
{
    if x.range.start == y.range.start && y.range.start == z.range.start && x.range.end == y.range.end
        && y.range.end == z.range.end {
        lemma_text_le_trans(x.text@, y.text@, z.text@);
    }
}

/// Whether `t` is in `(start, end, text)` order.
pub open spec fn in_key_order(t: Seq<Edit>) -> bool {
    forall|i: int, j: int| 0 <= i < j < t.len() ==> key_le(#[trigger] t[i], #[trigger] t[j])
}

proof fn lemma_insert_sorted_in_order(s: Seq<Edit>, e: Edit)
    requires
        in_key_order(s),
    ensures
        in_key_order(insert_sorted(s, e)),
    decreases s.len(),
{
    broadcast use vstd::seq_lib::group_to_multiset_ensures;

    if s.len() == 0 {
        assert(insert_sorted(s, e) == seq![e]);
    } else if key_le(s.last(), e) {
        let t = s.push(e);
        assert forall|i: int, j: int| 0 <= i < j < t.len() implies key_le(#[trigger] t[i], #[trigger] t[j]) by {
            if j == s.len() {
                if i < s.len() - 1 {
                    lemma_key_le_trans(s[i], s.last(), e);
                }
            } else {
                assert(t[i] == s[i] && t[j] == s[j]);
            }
        }
    } else {
        let d = s.drop_last();
        let l = s.last();
        lemma_text_le_total(l.text@, e.text@);
        assert(key_le(e, l));
        assert(in_key_order(d)) by {
            assert forall|i: int, j: int| 0 <= i < j < d.len() implies key_le(#[trigger] d[i], #[trigger] d[j]) by {
                assert(d[i] == s[i] && d[j] == s[j]);
            }
        }
        lemma_insert_sorted_in_order(d, e);
        lemma_insert_sorted_multiset(d, e);
        let u = insert_sorted(d, e);
        let t = u.push(l);
        assert forall|i: int, j: int| 0 <= i < j < t.len() implies key_le(#[trigger] t[i], #[trigger] t[j]) by {
            if j == u.len() {
                let x = u[i];
                assert(u.to_multiset().count(x) > 0);
                assert(d.to_multiset().insert(e).count(x) > 0);
                if x != e {
                    assert(d.to_multiset().count(x) > 0);
                    let k = choose|k: int| 0 <= k < d.len() && d[k] == x;
                    assert(s[k] == x);
                    assert(key_le(s[k], s[s.len() - 1]));
                }
            } else {
                assert(t[i] == u[i] && t[j] == u[j]);
            }
        }
    }
}

/// The sorted batch is in `(start, end, text)` order: together with
/// [`law_sorted_batch_is_a_permutation`], the order it is given in has no
/// say in the order it is spliced in, but for edits alike in range and text.
pub proof fn law_sorted_batch_is_in_order(es: Seq<Edit>)
    ensures
        in_key_order(sort_edits(es)),
    decreases es.len(),
{
    if es.len() > 0 {
        law_sorted_batch_is_in_order(es.drop_last());
        lemma_insert_sorted_in_order(sort_edits(es.drop_last()), es.last());
    }
}

/// Whether `x` and `y` replace the same range with the same text.
pub open spec fn alike(x: Edit, y: Edit) -> bool {
    x.range.start == y.range.start && x.range.end == y.range.end && x.text@ == y.text@
}

proof fn lemma_text_le_refl(a: Seq<char>)
    ensures
        text_le(a, a),
    decreases a.len(),
{
    if a.len() > 0 {
        lemma_text_le_refl(a.drop_first());
    }
}

proof fn lemma_sorted_alike(t1: Seq<Edit>, t2: Seq<Edit>)
    requires
        in_key_order(t1),
        in_key_order(t2),
        t1.to_multiset() == t2.to_multiset(),
    ensures
        t1.len() == t2.len(),
        forall|k: int| 0 <= k < t1.len() ==> alike(#[trigger] t1[k], t2[k]),
    decreases t1.len(),
{
    broadcast use vstd::seq_lib::group_to_multiset_ensures;
    broadcast use vstd::multiset::group_multiset_axioms;

    vstd::seq_lib::to_multiset_len(t1);
    vstd::seq_lib::to_multiset_len(t2);
    if t1.len() > 0 {
        let n = t1.len() - 1;
        let l1 = t1.last();
        let l2 = t2.last();
        assert(t1.to_multiset().count(l1) > 0) by {
            assert(t1.contains(l1)) by {
                assert(t1[n] == l1);
            }
        }
        assert(t2.contains(l1));
        let p = choose|p: int| 0 <= p < t2.len() && t2[p] == l1;
        assert(t2.to_multiset().count(l2) > 0) by {
            assert(t2.contains(l2)) by {
                assert(t2[n] == l2);
            }
        }
        assert(t1.contains(l2));
        let q = choose|q: int| 0 <= q < t1.len() && t1[q] == l2;
        lemma_text_le_refl(l1.text@);
        lemma_text_le_refl(l2.text@);
        assert(key_le(l2, l1)) by {
            if q < n {
                assert(key_le(t1[q], t1[n]));
            }
        }
        assert(key_le(l1, l2)) by {
            if p < n {
                assert(key_le(t2[p], t2[n]));
            }
        }
        lemma_text_le_total(l1.text@, l2.text@);
        assert(alike(l1, l2));
        let d1 = t1.drop_last();
        let d2 = t2.remove(p);
        vstd::seq_lib::to_multiset_remove(t2, p);
        vstd::seq_lib::to_multiset_build(d1, l1);
        assert(d1.push(l1) == t1);
        assert(d1.to_multiset() =~= t1.to_multiset().remove(l1));
        assert(in_key_order(d1)) by {
            assert forall|i: int, j: int| 0 <= i < j < d1.len() implies key_le(#[trigger] d1[i], #[trigger] d1[j]) by {
                assert(d1[i] == t1[i] && d1[j] == t1[j]);
            }
        }
        assert(in_key_order(d2)) by {
            assert forall|i: int, j: int| 0 <= i < j < d2.len() implies key_le(#[trigger] d2[i], #[trigger] d2[j]) by {
                let ii = if i < p { i } else { i + 1 };
                let jj = if j < p { j } else { j + 1 };
                assert(d2[i] == t2[ii] && d2[j] == t2[jj]);
            }
        }
        lemma_sorted_alike(d1, d2);
        assert forall|k: int| 0 <= k < t2.len() && p <= k implies alike(#[trigger] t2[k], l1) by {
            if k > p && k < n {
                assert(key_le(t2[p], t2[k]));
                assert(key_le(t2[k], t2[n]));
                lemma_text_le_total(l1.text@, t2[k].text@);
                lemma_text_le_total(t2[k].text@, l2.text@);
            } else if k == n && k != p {
                assert(t2[k] == l2);
            }
        }
        assert forall|k: int| 0 <= k < t1.len() implies alike(#[trigger] t1[k], t2[k]) by {
            if k == n {
            } else if k < p {
                assert(d1[k] == t1[k] && d2[k] == t2[k]);
                assert(alike(d1[k], d2[k]));
            } else {
                assert(d1[k] == t1[k] && d2[k] == t2[k + 1]);
                assert(alike(d1[k], d2[k]));
                assert(alike(t2[k + 1], l1));
                assert(alike(t2[k], l1));
            }
        }
    }
}

proof fn lemma_splice_from_alike(bytes: Seq<u8>, t1: Seq<Edit>, t2: Seq<Edit>, k: int, cursor: int)
    requires
        0 <= k,
        t1.len() == t2.len(),
        forall|i: int| 0 <= i < t1.len() ==> alike(#[trigger] t1[i], t2[i]),
    ensures
        splice_from(bytes, t1, k, cursor) == splice_from(bytes, t2, k, cursor),
    decreases t1.len() - k,
{
    if k < t1.len() {
        assert(alike(t1[k], t2[k]));
        lemma_splice_from_alike(bytes, t1, t2, k + 1, t1[k].range.end as int);
    }
}

/// The order a batch is given in is irrelevant: any two orderings of the
/// same edits splice to the same result.
pub proof fn law_splice_order_irrelevant(bytes: Seq<u8>, es1: Seq<Edit>, es2: Seq<Edit>)
    requires
        es1.to_multiset() == es2.to_multiset(),
    ensures
        splice_spec(bytes, es1) == splice_spec(bytes, es2),
{
    law_sorted_batch_is_in_order(es1);
    law_sorted_batch_is_in_order(es2);
    law_sorted_batch_is_a_permutation(es1);
    law_sorted_batch_is_a_permutation(es2);
    lemma_sorted_alike(sort_edits(es1), sort_edits(es2));
    lemma_splice_from_alike(bytes, sort_edits(es1), sort_edits(es2), 0, 0);
}

/// Whether the edits `t`, in order, each lie within `bytes` on character
/// boundaries and each starts at or after the end of the one before.
pub open spec fn ranges_fit(bytes: Seq<u8>, t: Seq<Edit>) -> bool {
    forall|k: int|
        0 <= k < t.len() ==> !out_of_bounds(bytes, #[trigger] t[k]) && (k > 0 ==> t[k - 1].range.end
            <= t[k].range.start)
}

/// [`ranges_fit`] for `t[k..]`, the first of them starting at or after
/// `cursor`.
spec fn fits_from(bytes: Seq<u8>, t: Seq<Edit>, k: int, cursor: int) -> bool
    decreases t.len() - k,
{
    if k < 0 || k >= t.len() {
        true
    } else {
        !out_of_bounds(bytes, t[k]) && t[k].range.start >= cursor && fits_from(bytes, t, k + 1, t[k].range.end as int)
    }
}

proof fn lemma_splice_from_fits(bytes: Seq<u8>, t: Seq<Edit>, k: int, cursor: int)
    requires
        0 <= k,
    ensures
        splice_from(bytes, t, k, cursor) is Ok <==> fits_from(bytes, t, k, cursor),
    decreases t.len() - k,
{
    if k < t.len() {
        lemma_splice_from_fits(bytes, t, k + 1, t[k].range.end as int);
    }
}

proof fn lemma_fits_from_forall(bytes: Seq<u8>, t: Seq<Edit>, k: int)
    requires
        0 < k <= t.len(),
    ensures
        fits_from(bytes, t, k, t[k - 1].range.end as int) <==> (forall|j: int|
            k <= j < t.len() ==> !out_of_bounds(bytes, #[trigger] t[j]) && t[j - 1].range.end
                <= t[j].range.start),
    decreases t.len() - k,
{
    if k < t.len() {
        lemma_fits_from_forall(bytes, t, k + 1);
    }
}

/// A batch splices exactly when its edits, in `(start, end, text)` order,
/// each lie within the source on character boundaries and none overlaps
/// the one before it; otherwise it is refused as a whole.
pub proof fn law_splice_succeeds_iff_ranges_fit(bytes: Seq<u8>, es: Seq<Edit>)
    ensures
        splice_spec(bytes, es) is Ok <==> ranges_fit(bytes, sort_edits(es)),
{
    let t = sort_edits(es);
    lemma_splice_from_fits(bytes, t, 0, 0);
    if t.len() > 0 {
        lemma_fits_from_forall(bytes, t, 1);
        if ranges_fit(bytes, t) {
            assert(!out_of_bounds(bytes, t[0]));
        }
        if fits_from(bytes, t, 0, 0) {
            assert forall|k: int| 0 <= k < t.len() implies !out_of_bounds(bytes, #[trigger] t[k]) && (k > 0
                ==> t[k - 1].range.end <= t[k].range.start) by {
                if k > 0 {
                    assert(1 <= k < t.len());
                }
            }
        }
    }
}

/// One edit within the bytes, on character boundaries, replaces exactly its
/// range with its text; an edit off the bytes or a boundary is refused.
pub proof fn law_splice_one_edit(bytes: Seq<u8>, e: Edit)
    ensures
        !out_of_bounds(bytes, e) ==> splice_spec(bytes, seq![e]) == Ok::<Seq<u8>, SpliceError>(
            bytes.subrange(0, e.range.start as int) + encode_utf8(e.text@) + bytes.subrange(
                e.range.end as int,
                bytes.len() as int,
            ),
        ),
        out_of_bounds(bytes, e) ==> splice_spec(bytes, seq![e]) == Err::<Seq<u8>, SpliceError>(
            SpliceError::OutOfBounds,
        ),
{
    let one = seq![e];
    assert(one.drop_last() == Seq::<Edit>::empty());
    assert(one.last() == e);
    assert(sort_edits(Seq::<Edit>::empty()) == Seq::<Edit>::empty());
    assert(insert_sorted(Seq::<Edit>::empty(), e) == one);
    assert(sort_edits(one) == one);
    if !out_of_bounds(bytes, e) {
        assert(splice_from(bytes, one, 1, e.range.end as int) == Ok::<Seq<u8>, SpliceError>(
            bytes.subrange(e.range.end as int, bytes.len() as int),
        ));
    }
}

// --- Line operations ------------------------------------------------------------

/// A line-oriented edit operation referencing 1-based line numbers from the
/// read snapshot (Line-hash mode).
#[derive(Debug, Clone, PartialEq, Eq)]
pub enum LineOp {
    /// Replace lines `start..=end` (inclusive) with `text`.
    Replace {
        /// First line to replace (1-based).
        start: u32,
        /// Last line to replace (1-based, inclusive).
        end: u32,
        /// Replacement text (verbatim, including its own terminators).
        text: String,
    },
    /// Delete lines `start..=end` (inclusive).
    Delete {
        /// First line to delete (1-based).
        start: u32,
        /// Last line to delete (1-based, inclusive).
        end: u32,
    },
    /// Insert `text` after line `after`; `after == 0` inserts before line 1.
    InsertAfter {
        /// Line to insert after (1-based; 0 = before the first line).
        after: u32,
        /// Text to insert (verbatim).
        text: String,
    },
}

/// Why an [`apply_line_ops`] batch was rejected.
#[derive(Debug, Clone, Copy, PartialEq, Eq, Structural)]
pub enum EditError {
    /// A referenced line number is outside the file.
    LineOutOfRange,
    /// The resulting byte edits could not be spliced.
    Splice(SpliceError),
}

/// The byte offsets at which lines start, from a line starting at `i` on.
/// Lines end at `\n`; the text after the last `\n` (possibly empty) is the
/// last line.
pub open spec fn line_starts_from(b: Seq<u8>, i: int) -> Seq<int>
    decreases b.len() - i,
{
    let j = byte_pos(b, 10, i);
    if i < 0 || j >= b.len() {
        seq![i]
    } else {
        proof {
            lemma_byte_pos(b, 10, i);
        }
        seq![i] + line_starts_from(b, j + 1)
    }
}

/// The byte offset at which each line starts.
pub open spec fn line_starts(b: Seq<u8>) -> Seq<int> {
    line_starts_from(b, 0)
}

pub proof fn lemma_line_starts_from(b: Seq<u8>, i: int)
    requires
        0 <= i <= b.len(),
    ensures
        line_starts_from(b, i).len() >= 1,
        forall|k: int|
            0 <= k < line_starts_from(b, i).len() ==> i <= #[trigger] line_starts_from(b, i)[k]
                <= b.len(),
        forall|k: int|
            1 <= k < line_starts_from(b, i).len() ==> line_starts_from(b, i)[k - 1]
                < #[trigger] line_starts_from(b, i)[k],
    decreases b.len() - i,
{
    lemma_byte_pos(b, 10, i);
    let j = byte_pos(b, 10, i);
    if j < b.len() {
        lemma_line_starts_from(b, j + 1);
        let rest = line_starts_from(b, j + 1);
        let all = line_starts_from(b, i);
        assert(all == seq![i] + rest);
        assert forall|k: int| 1 <= k < all.len() implies all[k - 1] < #[trigger] all[k] by {
            assert(all[k] == rest[k - 1]);
            if k >= 2 {
                assert(all[k - 1] == rest[k - 2]);
            }
        }
    }
}

/// Line starts rise strictly from 0 and stay within the text.
pub proof fn lemma_line_starts_increase(b: Seq<u8>)
    ensures
        line_starts(b).len() >= 1,
        forall|k: int| 0 <= k < line_starts(b).len() ==> 0 <= #[trigger] line_starts(b)[k] <= b.len(),
        forall|k: int| 1 <= k < line_starts(b).len() ==> line_starts(b)[k - 1] < #[trigger] line_starts(b)[k],
{
    lemma_line_starts_from(b, 0);
}

/// The full byte span of 1-based line `n`, terminator included.
pub open spec fn full_line_span(b: Seq<u8>, n: int) -> Option<(int, int)> {
    let st = line_starts(b);
    if n < 1 || n > st.len() {
        None
    } else if n < st.len() {
        Some((st[n - 1], st[n]))
    } else {
        Some((st[n - 1], b.len() as int))
    }
}

/// The byte range spanning lines `start..=end`, terminators included.
pub open spec fn line_bytes(b: Seq<u8>, start: int, end: int) -> Result<(int, int), EditError> {
    if start > end {
        Err(EditError::LineOutOfRange)
    } else {
        match (full_line_span(b, start), full_line_span(b, end)) {
            (Some(f), Some(l)) => Ok((f.0, l.1)),
            _ => Err(EditError::LineOutOfRange),
        }
    }
}

/// Whether every line `op` names is in the file.
pub open spec fn op_ok(b: Seq<u8>, op: LineOp) -> bool {
    match op {
        LineOp::Replace { start, end, .. } => line_bytes(b, start as int, end as int) is Ok,
        LineOp::Delete { start, end } => line_bytes(b, start as int, end as int) is Ok,
        LineOp::InsertAfter { after, .. } => after == 0 || full_line_span(b, after as int) is Some,
    }
}

/// Whether `e` is the byte edit `op` stands for: the lines' full span (for an
/// insertion, the empty span at the end of line `after`, or at 0) and the
/// operation's text (empty for a deletion).
pub open spec fn op_matches(b: Seq<u8>, op: LineOp, e: Edit) -> bool {
    match op {
        LineOp::Replace { start, end, text } => match line_bytes(b, start as int, end as int) {
            Ok(r) => e.range.start == r.0 && e.range.end == r.1 && e.text == text,
            Err(_) => false,
        },
        LineOp::Delete { start, end } => match line_bytes(b, start as int, end as int) {
            Ok(r) => e.range.start == r.0 && e.range.end == r.1 && e.text@ == Seq::<char>::empty(),
            Err(_) => false,
        },
        LineOp::InsertAfter { after, text } => e.text == text && if after == 0 {
            e.range.start == 0 && e.range.end == 0
        } else {
            match full_line_span(b, after as int) {
                Some(r) => e.range.start == r.1 && e.range.end == r.1,
                None => false,
            }
        },
    }
}

/// Whether `es` are the byte edits of `ops`, one for one.
pub open spec fn ops_match(b: Seq<u8>, ops: Seq<LineOp>, es: Seq<Edit>) -> bool {
    &&& es.len() == ops.len()
    &&& forall|i: int| 0 <= i < ops.len() ==> op_matches(b, #[trigger] ops[i], es[i])
}

/// The start offset of every line of `b`.
pub(crate) fn line_start_table(b: &[u8]) -> (r: Vec<usize>)
    ensures
        r@.len() == line_starts(b@).len(),
        forall|k: int| 0 <= k < r@.len() ==> r@[k] == line_starts(b@)[k],
        forall|k: int| 0 <= k < r@.len() ==> r@[k] <= b@.len(),
{
    let mut r: Vec<usize> = Vec::new();
    let mut i: usize = 0;
    let ghost mut acc: Seq<int> = Seq::empty();
    loop
        invariant
            i <= b@.len(),
            acc + line_starts_from(b@, i as int) == line_starts(b@),
            r@.len() == acc.len(),
            forall|k: int| 0 <= k < r@.len() ==> r@[k] == acc[k],
            forall|k: int| 0 <= k < r@.len() ==> r@[k] <= b@.len(),
        decreases b@.len() - i,
    {
        let j = byte_pos_exec(b, 10, i);
        proof {
            lemma_byte_pos(b@, 10, i as int);
        }
        r.push(i);
        proof {
            acc = acc.push(i as int);
        }
        if j >= b.len() {
            assert(line_starts_from(b@, i as int) == seq![i as int]);
            assert(acc == line_starts(b@));
            return r;
        }
        assert(line_starts_from(b@, i as int) == seq![i as int] + line_starts_from(b@, j + 1));
        i = j + 1;
    }
}

/// The full span of 1-based line `n`.
fn full_line_span_exec(b: &[u8], starts: &Vec<usize>, n: u32) -> (r: Option<(usize, usize)>)
    requires
        starts@.len() == line_starts(b@).len(),
        forall|k: int| 0 <= k < starts@.len() ==> starts@[k] == line_starts(b@)[k],
        forall|k: int| 0 <= k < starts@.len() ==> starts@[k] <= b@.len(),
    ensures
        match r {
            Some((s, e)) => full_line_span(b@, n as int) == Some((s as int, e as int)),
            None => full_line_span(b@, n as int) is None,
        },
{
    let k = n as usize;
    if k < 1 || k > starts.len() {
        None
    } else if k < starts.len() {
        Some((starts[k - 1], starts[k]))
    } else {
        Some((starts[k - 1], b.len()))
    }
}

/// The byte range spanning lines `start..=end`.
fn line_bytes_exec(b: &[u8], starts: &Vec<usize>, start: u32, end: u32) -> (r: Result<(usize, usize), EditError>)
    requires
        starts@.len() == line_starts(b@).len(),
        forall|k: int| 0 <= k < starts@.len() ==> starts@[k] == line_starts(b@)[k],
        forall|k: int| 0 <= k < starts@.len() ==> starts@[k] <= b@.len(),
    ensures
        match r {
            Ok((s, e)) => line_bytes(b@, start as int, end as int) == Ok::<(int, int), EditError>(
                (s as int, e as int),
            ),
            Err(x) => line_bytes(b@, start as int, end as int) == Err::<(int, int), EditError>(x),
        },
{
    if start > end {
        return Err(EditError::LineOutOfRange);
    }
    match (full_line_span_exec(b, starts, start), full_line_span_exec(b, starts, end)) {
        (Some(f), Some(l)) => Ok((f.0, l.1)),
        _ => Err(EditError::LineOutOfRange),
    }
}

/// The byte edit of one line operation.
fn op_edit_exec(b: &[u8], starts: &Vec<usize>, op: &LineOp) -> (r: Result<Edit, EditError>)
    requires
        starts@.len() == line_starts(b@).len(),
        forall|k: int| 0 <= k < starts@.len() ==> starts@[k] == line_starts(b@)[k],
        forall|k: int| 0 <= k < starts@.len() ==> starts@[k] <= b@.len(),
    ensures
        match r {
            Ok(e) => op_matches(b@, *op, e),
            Err(x) => x == EditError::LineOutOfRange && !op_ok(b@, *op),
        },
{
    match op {
        LineOp::Replace { start, end, text } => match line_bytes_exec(b, starts, *start, *end) {
            Ok((s, e)) => Ok(Edit { range: s..e, text: text.clone() }),
            Err(x) => Err(x),
        },
        LineOp::Delete { start, end } => match line_bytes_exec(b, starts, *start, *end) {
            Ok((s, e)) => Ok(Edit { range: s..e, text: String::new() }),
            Err(x) => Err(x),
        },
        LineOp::InsertAfter { after, text } => {
            if *after == 0 {
                Ok(Edit { range: 0..0, text: text.clone() })
            } else {
                match full_line_span_exec(b, starts, *after) {
                    Some((_, e)) => Ok(Edit { range: e..e, text: text.clone() }),
                    None => Err(EditError::LineOutOfRange),
                }
            }
        },
    }
}

/// Whether `r` is what applying `ops` to `src` gives: refused when an
/// operation names a line outside the file, else the splice of the
/// operations' byte edits.
pub open spec fn line_ops_applied(src: Seq<char>, ops: Seq<LineOp>, r: Result<String, EditError>) -> bool {
    let b = encode_utf8(src);
    match r {
        Ok(s) => (forall|i: int| 0 <= i < ops.len() ==> op_ok(b, #[trigger] ops[i])) && exists|
            es: Seq<Edit>,
        | ops_match(b, ops, es) && splice_spec(b, es) == Ok::<Seq<u8>, SpliceError>(encode_utf8(s@)),
        Err(EditError::LineOutOfRange) => exists|i: int| 0 <= i < ops.len() && !op_ok(b, #[trigger] ops[i]),
        Err(EditError::Splice(x)) => (forall|i: int| 0 <= i < ops.len() ==> op_ok(b, #[trigger] ops[i]))
            && exists|es: Seq<Edit>|
            ops_match(b, ops, es) && splice_spec(b, es) == Err::<Seq<u8>, SpliceError>(x),
    }
}

/// Apply a batch of [`LineOp`]s to `source`, resolving every line number
/// against the original snapshot, and return the new content: the batch is
/// refused when an operation names a line outside the file, and otherwise
/// its byte edits are spliced together.
pub fn apply_line_ops(source: &str, ops: &[LineOp]) -> (r: Result<String, EditError>)
    ensures
        line_ops_applied(source@, ops@, r),
{
    let b = source.as_bytes();
    let starts = line_start_table(b);
    let mut edits: Vec<Edit> = Vec::new();
    let mut i: usize = 0;
    while i < ops.len()
        invariant
            b@ == source.spec_bytes(),
            starts@.len() == line_starts(b@).len(),
            forall|k: int| 0 <= k < starts@.len() ==> starts@[k] == line_starts(b@)[k],
            forall|k: int| 0 <= k < starts@.len() ==> starts@[k] <= b@.len(),
            i <= ops@.len(),
            ops_match(b@, ops@.take(i as int), edits@),
            forall|k: int| 0 <= k < i ==> op_ok(b@, #[trigger] ops@[k]),
        decreases ops.len() - i,
    {
        match op_edit_exec(b, &starts, &ops[i]) {
            Ok(e) => {
                let ghost prev = edits@;
                edits.push(e);
                proof {
                    assert forall|k: int| 0 <= k < i + 1 implies op_matches(
                        b@,
                        #[trigger] ops@.take(i + 1)[k],
                        edits@[k],
                    ) by {
                        if k < i {
                            assert(ops@.take(i as int)[k] == ops@.take(i + 1)[k]);
                            assert(edits@[k] == prev[k]);
                        }
                    }
                }
            },
            Err(x) => {
                return Err(x);
            },
        }
        i = i + 1;
    }
    assert(ops@.take(i as int) == ops@);
    match splice(source, edits) {
        Ok(s) => Ok(s),
        Err(x) => Err(EditError::Splice(x)),
    }
}


// --- Where edits land -------------------------------------------------------------

/// The byte length of `e`'s text.
pub open spec fn text_len(e: Edit) -> int {
    (encode_utf8(e.text@).len() as usize) as int
}

/// The byte length of `e`'s range (0 when it is inverted).
pub open spec fn range_len(e: Edit) -> int {
    if e.range.start <= e.range.end {
        e.range.end - e.range.start
    } else {
        0
    }
}

/// Whether edit `j` of `es` is spliced before edit `i`: by `(start, end,
/// text)` (see [`key_le`]), equal edits in batch order.
pub open spec fn spliced_before(es: Seq<Edit>, j: int, i: int) -> bool {
    j != i && (es[j].range.start < es[i].range.start || (es[j].range.start == es[i].range.start && (
    es[j].range.end < es[i].range.end || (es[j].range.end == es[i].range.end && text_le(
        es[j].text@,
        es[i].text@,
    ) && (!text_le(es[i].text@, es[j].text@) || j < i)))))
}

/// Whether edit `a` (at `j`) is spliced before edit `b` (at `i`).
fn spliced_before_exec(a: &Edit, b: &Edit, j: usize, i: usize, Ghost(es): Ghost<Seq<Edit>>) -> (r: bool)
    requires
        j < es.len(),
        i < es.len(),
        es[j as int] == *a,
        es[i as int] == *b,
    ensures
        r == spliced_before(es, j as int, i as int),
{
    if j == i {
        false
    } else if a.range.start != b.range.start {
        a.range.start < b.range.start
    } else if a.range.end != b.range.end {
        a.range.end < b.range.end
    } else {
        let x = crate::text::chars_of(a.text.as_str());
        let y = crate::text::chars_of(b.text.as_str());
        text_le_exec(x.as_slice(), y.as_slice()) && (!text_le_exec(y.as_slice(), x.as_slice()) || j < i)
    }
}

/// The text bytes of the edits among `es[..k]` spliced before edit `i`.
pub open spec fn grown_before(es: Seq<Edit>, i: int, k: int) -> int
    decreases k,
{
    if k <= 0 {
        0
    } else {
        grown_before(es, i, k - 1) + if spliced_before(es, k - 1, i) {
            text_len(es[k - 1])
        } else {
            0
        }
    }
}

/// The range bytes of the edits among `es[..k]` spliced before edit `i`.
pub open spec fn shrunk_before(es: Seq<Edit>, i: int, k: int) -> int
    decreases k,
{
    if k <= 0 {
        0
    } else {
        shrunk_before(es, i, k - 1) + if spliced_before(es, k - 1, i) {
            range_len(es[k - 1])
        } else {
            0
        }
    }
}

/// Where edit `i`'s text lands in the spliced output: its start, moved by
/// the change in length of every edit spliced before it, and its text's
/// length on.
pub open spec fn landed(es: Seq<Edit>, i: int) -> (int, int) {
    let s = es[i].range.start + grown_before(es, i, es.len() as int) - shrunk_before(
        es,
        i,
        es.len() as int,
    );
    (s, s + text_len(es[i]))
}

/// `x` clamped into `0..=usize::MAX`.
pub open spec fn clamp_usize(x: int) -> int {
    if x < 0 {
        0
    } else if x > usize::MAX {
        usize::MAX as int
    } else {
        x
    }
}

/// The byte range each edit's text occupies once spliced (see [`landed`]),
/// clamped to `usize`.
pub fn landed_spans(es: &Vec<Edit>) -> (r: Vec<Range<usize>>)
    ensures
        r@.len() == es@.len(),
        forall|i: int|
            0 <= i < es@.len() ==> r@[i].start == clamp_usize(landed(es@, i).0) && r@[i].end
                == clamp_usize(landed(es@, i).1),
{
    let n = es.len();
    let mut r: Vec<Range<usize>> = Vec::new();
    let mut i: usize = 0;
    while i < n
        invariant
            n == es@.len(),
            i <= n,
            r@.len() == i,
            forall|q: int|
                0 <= q < i ==> r@[q].start == clamp_usize(landed(es@, q).0) && r@[q].end
                    == clamp_usize(landed(es@, q).1),
        decreases n - i,
    {
        let mut grow: u128 = 0;
        let mut shrink: u128 = 0;
        let mut j: usize = 0;
        while j < n
            invariant
                n == es@.len(),
                i < n,
                j <= n,
                grow == grown_before(es@, i as int, j as int),
                shrink == shrunk_before(es@, i as int, j as int),
                grow <= j * (usize::MAX as int),
                shrink <= j * (usize::MAX as int),
            decreases n - j,
        {
            let a = &es[j];
            let b = &es[i];
            if spliced_before_exec(a, b, j, i, Ghost(es@)) {
                let tl = a.text.as_str().len();
                assert(tl == text_len(es@[j as int]));
                grow = grow + tl as u128;
                let rl = if a.range.start <= a.range.end {
                    a.range.end - a.range.start
                } else {
                    0
                };
                shrink = shrink + rl as u128;
            }
            j = j + 1;
        }
        let tl = es[i].text.as_str().len();
        let up = es[i].range.start as u128 + grow;
        let start: usize = if up < shrink {
            0
        } else if up - shrink > usize::MAX as u128 {
            usize::MAX
        } else {
            (up - shrink) as usize
        };
        let up2 = up + tl as u128;
        let end: usize = if up2 < shrink {
            0
        } else if up2 - shrink > usize::MAX as u128 {
            usize::MAX
        } else {
            (up2 - shrink) as usize
        };
        r.push(start..end);
        i = i + 1;
    }
    r
}

} // verus!
