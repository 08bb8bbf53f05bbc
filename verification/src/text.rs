//! Character-level text primitives shared by every module: turning a `str`
//! into its characters and back, the line structure of a source (as the
//! reader's line index sees it), Unicode whitespace, and UTF-8 widths.

use vstd::prelude::*;
use vstd::std_specs::iter::IteratorSpec;

verus! {

/// `char::is_whitespace`: the Unicode `White_Space` property.
pub open spec fn is_ws(c: char) -> bool {
    let u = c as u32;
    ||| 0x09 <= u <= 0x0d
    ||| u == 0x20
    ||| u == 0x85
    ||| u == 0xa0
    ||| u == 0x1680
    ||| 0x2000 <= u <= 0x200a
    ||| u == 0x2028
    ||| u == 0x2029
    ||| u == 0x202f
    ||| u == 0x205f
    ||| u == 0x3000
}

/// Executable `char::is_whitespace`, written out from the Unicode table.
pub fn is_whitespace(c: char) -> (b: bool)
    ensures
        b == is_ws(c),
{
    let u = c as u32;
    (0x09 <= u && u <= 0x0d) || u == 0x20 || u == 0x85 || u == 0xa0 || u == 0x1680 || (0x2000
        <= u && u <= 0x200a) || u == 0x2028 || u == 0x2029 || u == 0x202f || u == 0x205f || u
        == 0x3000
}

/// The number of bytes `c` takes in UTF-8.
pub open spec fn utf8_len(c: char) -> nat {
    let u = c as u32;
    if u < 0x80 {
        1
    } else if u < 0x800 {
        2
    } else if u < 0x10000 {
        3
    } else {
        4
    }
}

/// The number of bytes `s` takes in UTF-8.
pub open spec fn utf8_len_seq(s: Seq<char>) -> nat
    decreases s.len(),
{
    if s.len() == 0 {
        0
    } else {
        utf8_len_seq(s.drop_last()) + utf8_len(s.last())
    }
}

pub fn char_utf8_len(c: char) -> (n: usize)
    ensures
        n == utf8_len(c),
{
    let u = c as u32;
    if u < 0x80 {
        1
    } else if u < 0x800 {
        2
    } else if u < 0x10000 {
        3
    } else {
        4
    }
}

/// The UTF-8 byte length of `s`, saturating at `usize::MAX`.
pub fn seq_utf8_len(s: &[char]) -> (n: usize)
    ensures
        n == (if utf8_len_seq(s@) <= usize::MAX {
            utf8_len_seq(s@)
        } else {
            usize::MAX as nat
        }),
{
    let mut n: usize = 0;
    let mut i: usize = 0;
    while i < s.len()
        invariant
            i <= s.len(),
            n == (if utf8_len_seq(s@.take(i as int)) <= usize::MAX {
                utf8_len_seq(s@.take(i as int))
            } else {
                usize::MAX as nat
            }),
        decreases s.len() - i,
    {
        assert(s@.take(i + 1).drop_last() == s@.take(i as int));
        let w = char_utf8_len(s[i]);
        n = n.saturating_add(w);
        i = i + 1;
    }
    assert(s@.take(s.len() as int) == s@);
    n
}

/// The characters of `s`.
pub fn chars_of(s: &str) -> (r: Vec<char>)
    ensures
        r@ == s@,
{
    let mut r: Vec<char> = Vec::new();
    for c in it: s.chars()
        invariant
            r@ == it.seq().take(it.index() as int),
    {
        r.push(c);
    }
    r
}

/// `String::push`.
#[verifier::external_body]
pub(crate) fn push_char(s: &mut String, c: char)
    ensures
        final(s)@ == old(s)@.push(c),
{
    s.push(c);
}

/// Append `cs` to `s`.
pub fn push_chars(s: &mut String, cs: &[char])
    ensures
        final(s)@ == old(s)@ + cs@,
{
    let mut i: usize = 0;
    while i < cs.len()
        invariant
            i <= cs.len(),
            s@ == old(s)@ + cs@.take(i as int),
        decreases cs.len() - i,
    {
        push_char(s, cs[i]);
        assert(old(s)@ + cs@.take(i + 1) == old(s)@ + cs@.take(i as int) + seq![cs@[i as int]]);
        i = i + 1;
    }
    assert(cs@.take(cs.len() as int) == cs@);
}

/// Append the characters `cs[from..to]` to `s`.
pub fn push_range(s: &mut String, cs: &[char], from: usize, to: usize)
    requires
        from <= to <= cs@.len(),
    ensures
        final(s)@ == old(s)@ + cs@.subrange(from as int, to as int),
{
    let mut i: usize = from;
    while i < to
        invariant
            from <= i <= to <= cs@.len(),
            s@ == old(s)@ + cs@.subrange(from as int, i as int),
        decreases to - i,
    {
        push_char(s, cs[i]);
        assert(cs@.subrange(from as int, i + 1) == cs@.subrange(from as int, i as int).push(
            cs@[i as int],
        ));
        i = i + 1;
    }
}

/// A `String` holding exactly `cs`.
pub fn string_of(cs: &[char]) -> (s: String)
    ensures
        s@ == cs@,
{
    let mut s = String::new();
    push_chars(&mut s, cs);
    s
}

/// A `String` holding `cs[from..to]`.
pub fn string_of_range(cs: &[char], from: usize, to: usize) -> (s: String)
    requires
        from <= to <= cs@.len(),
    ensures
        s@ == cs@.subrange(from as int, to as int),
{
    let mut s = String::new();
    push_range(&mut s, cs, from, to);
    s
}

/// What `unicode_width::UnicodeWidthStr::width` returns for `s`: its
/// displayed width in columns by East Asian Width (ambiguous-width
/// characters count as 1).
pub uninterp spec fn display_width(s: Seq<char>) -> nat;

/// `unicode_width::UnicodeWidthStr::width`.
#[verifier::external_body]
pub(crate) fn str_width(s: &str) -> (n: usize)
    ensures
        n == display_width(s@),
{
    unicode_width::UnicodeWidthStr::width(s)
}

/// What `unicode_width::UnicodeWidthChar::width` returns for `c`: its
/// displayed width in columns, or `None` for a control character.
pub uninterp spec fn char_display_width(c: char) -> Option<usize>;

/// `unicode_width::UnicodeWidthChar::width`.
#[verifier::external_body]
pub(crate) fn char_width(c: char) -> (r: Option<usize>)
    ensures
        r == char_display_width(c),
{
    unicode_width::UnicodeWidthChar::width(c)
}

// --- Lines ------------------------------------------------------------------
//
// Lines break at `\n` only; a line's content excludes its `\n` and, for a
// `\r\n` break, the `\r`. A source always has at least one line (the text
// after its last `\n`, possibly empty).

/// The number of `\n` in `s[0..k]`: the 0-based line of offset `k`.
pub open spec fn nl_count(s: Seq<char>, k: int) -> nat
    decreases k,
{
    if k <= 0 || s.len() == 0 {
        0
    } else if k > s.len() {
        nl_count(s, s.len() as int)
    } else {
        nl_count(s, k - 1) + (if s[k - 1] == '\n' {
            1nat
        } else {
            0nat
        })
    }
}

/// The 0-based line holding offset `k` (clamped to the end of `s`).
pub open spec fn line_of(s: Seq<char>, k: int) -> nat {
    nl_count(s, k)
}

/// The first `\n` at or after `i`, or `s.len()`.
pub open spec fn next_nl(s: Seq<char>, i: int) -> int
    decreases s.len() - i,
{
    if i >= s.len() {
        s.len() as int
    } else if i < 0 {
        next_nl(s, 0)
    } else if s[i] == '\n' {
        i
    } else {
        next_nl(s, i + 1)
    }
}

/// The content span of the line starting at `i`, ending before its `\n`
/// (and a `\r` before that).
pub open spec fn line_span_at(s: Seq<char>, i: int) -> (int, int) {
    let j = next_nl(s, i);
    if j > i && s[j - 1] == '\r' {
        (i, j - 1)
    } else {
        (i, j)
    }
}

/// The content spans of the lines starting at `i` and after.
pub open spec fn line_spans_from(s: Seq<char>, i: int) -> Seq<(int, int)>
    decreases s.len() - i,
{
    let j = next_nl(s, i);
    if i < 0 || j >= s.len() || i >= s.len() {
        seq![line_span_at(s, i)]
    } else {
        proof {
            lemma_next_nl_bounds(s, i);
        }
        seq![line_span_at(s, i)] + line_spans_from(s, j + 1)
    }
}

/// The content spans of every line of `s`.
pub open spec fn line_spans(s: Seq<char>) -> Seq<(int, int)> {
    line_spans_from(s, 0)
}

/// The content of line `k` of `s`.
pub open spec fn line_content(s: Seq<char>, k: int) -> Seq<char> {
    let sp = line_spans(s)[k];
    s.subrange(sp.0, sp.1)
}

pub proof fn lemma_next_nl_bounds(s: Seq<char>, i: int)
    requires
        0 <= i,
    ensures
        i <= next_nl(s, i) <= s.len() || (i > s.len() && next_nl(s, i) == s.len()),
        next_nl(s, i) < s.len() ==> s[next_nl(s, i)] == '\n',
        forall|k: int| i <= k < next_nl(s, i) ==> s[k] != '\n',
    decreases s.len() - i,
{
    if i < s.len() && s[i] != '\n' {
        lemma_next_nl_bounds(s, i + 1);
    }
}

/// The first `\n` at or after `i`, or the end.
fn find_nl(s: &[char], i: usize) -> (j: usize)
    requires
        i <= s@.len(),
    ensures
        j == next_nl(s@, i as int),
{
    let mut j = i;
    while j < s.len() && s[j] != '\n'
        invariant
            i <= j <= s@.len(),
            next_nl(s@, j as int) == next_nl(s@, i as int),
        decreases s.len() - j,
    {
        j = j + 1;
    }
    j
}

/// The content spans of every line of `s`.
pub fn line_table(s: &[char]) -> (r: Vec<(usize, usize)>)
    ensures
        r@.len() == line_spans(s@).len(),
        forall|k: int|
            0 <= k < r@.len() ==> (#[trigger] r@[k]).0 == line_spans(s@)[k].0 && r@[k].1
                == line_spans(s@)[k].1,
        forall|k: int| 0 <= k < r@.len() ==> (#[trigger] r@[k]).0 <= r@[k].1 <= s@.len(),
{
    let mut r: Vec<(usize, usize)> = Vec::new();
    let mut i: usize = 0;
    let ghost mut acc: Seq<(int, int)> = Seq::empty();
    loop
        invariant
            i <= s@.len(),
            acc + line_spans_from(s@, i as int) == line_spans(s@),
            r@.len() == acc.len(),
            forall|k: int|
                0 <= k < r@.len() ==> (#[trigger] r@[k]).0 == acc[k].0 && r@[k].1 == acc[k].1,
            forall|k: int| 0 <= k < r@.len() ==> (#[trigger] r@[k]).0 <= r@[k].1 <= s@.len(),
        decreases s@.len() - i,
    {
        proof {
            lemma_next_nl_bounds(s@, i as int);
        }
        let j = find_nl(s, i);
        let e = if j > i && s[j - 1] == '\r' {
            j - 1
        } else {
            j
        };
        r.push((i, e));
        proof {
            acc = acc.push(line_span_at(s@, i as int));
        }
        if j >= s.len() {
            assert(acc == line_spans(s@));
            return r;
        }
        assert(acc + line_spans_from(s@, j + 1) == line_spans(s@)) by {
            assert(line_spans_from(s@, i as int) == seq![line_span_at(s@, i as int)]
                + line_spans_from(s@, j + 1));
        }
        i = j + 1;
    }
}

/// `nl[k]` is the 0-based line of offset `k`, for every `k` in `0..=s.len()`.
pub fn line_numbers(s: &[char]) -> (nl: Vec<usize>)
    ensures
        nl@.len() == s@.len() + 1,
        forall|k: int| 0 <= k <= s@.len() ==> nl@[k] == nl_count(s@, k),
{
    let mut nl: Vec<usize> = Vec::new();
    nl.push(0);
    let mut i: usize = 0;
    while i < s.len()
        invariant
            i <= s@.len(),
            nl@.len() == i + 1,
            forall|k: int| 0 <= k <= i ==> nl@[k] == nl_count(s@, k),
            forall|k: int| 0 <= k <= i ==> nl@[k] <= k,
        decreases s.len() - i,
    {
        let prev = nl[i];
        let next = if s[i] == '\n' {
            prev + 1
        } else {
            prev
        };
        nl.push(next);
        i = i + 1;
    }
    nl
}

// --- Trimming ---------------------------------------------------------------

/// The number of leading characters of `s` that are whitespace other than a
/// page break (`^L`, U+000C).
pub open spec fn indent_len(s: Seq<char>) -> nat
    decreases s.len(),
{
    if s.len() > 0 && is_ws(s[0]) && s[0] != '\u{0c}' {
        1 + indent_len(s.drop_first())
    } else {
        0
    }
}

/// `s` without its leading non-page-break whitespace: the part of a line a
/// reindent keeps.
pub open spec fn trim_indent(s: Seq<char>) -> Seq<char> {
    s.subrange(indent_len(s) as int, s.len() as int)
}

pub proof fn lemma_indent_len_bound(s: Seq<char>)
    ensures
        indent_len(s) <= s.len(),
        forall|k: int| 0 <= k < indent_len(s) ==> is_ws(#[trigger] s[k]) && s[k] != '\u{0c}',
        indent_len(s) < s.len() ==> !(is_ws(s[indent_len(s) as int]) && s[indent_len(s) as int]
            != '\u{0c}'),
    decreases s.len(),
{
    if s.len() > 0 && is_ws(s[0]) && s[0] != '\u{0c}' {
        lemma_indent_len_bound(s.drop_first());
        assert forall|k: int| 0 <= k < indent_len(s) implies is_ws(#[trigger] s[k]) && s[k]
            != '\u{0c}' by {
            if k > 0 {
                assert(s[k] == s.drop_first()[k - 1]);
            }
        }
    }
}

/// `indent_len` of the characters `s[from..to]`.
pub fn indent_len_of(s: &[char], from: usize, to: usize) -> (n: usize)
    requires
        from <= to <= s@.len(),
    ensures
        n == indent_len(s@.subrange(from as int, to as int)),
        from + n <= to,
{
    let mut i = from;
    while i < to && is_whitespace(s[i]) && s[i] != '\u{0c}'
        invariant
            from <= i <= to <= s@.len(),
            indent_len(s@.subrange(from as int, to as int)) == (i - from) + indent_len(
                s@.subrange(i as int, to as int),
            ),
        decreases to - i,
    {
        assert(s@.subrange(i as int, to as int).drop_first() == s@.subrange(i + 1, to as int));
        i = i + 1;
    }
    proof {
        lemma_indent_len_bound(s@.subrange(from as int, to as int));
    }
    i - from
}

/// Whether `s[at..]` starts with `prefix`.
pub open spec fn has_prefix_at(s: Seq<char>, at: int, prefix: Seq<char>) -> bool {
    &&& 0 <= at
    &&& at + prefix.len() <= s.len()
    &&& s.subrange(at, at + prefix.len()) == prefix
}

pub fn starts_with_at(s: &[char], at: usize, prefix: &[char]) -> (b: bool)
    requires
        at <= s@.len(),
    ensures
        b == has_prefix_at(s@, at as int, prefix@),
{
    if prefix.len() > s.len() - at {
        return false;
    }
    let mut k: usize = 0;
    while k < prefix.len()
        invariant
            at + prefix@.len() <= s@.len(),
            s@.len() == s.len(),
            k <= prefix@.len(),
            forall|j: int| 0 <= j < k ==> s@[at + j] == prefix@[j],
        decreases prefix.len() - k,
    {
        if s[at + k] != prefix[k] {
            assert(s@.subrange(at as int, at + prefix@.len())[k as int] != prefix@[k as int]);
            return false;
        }
        k = k + 1;
    }
    assert(s@.subrange(at as int, at + prefix@.len()) == prefix@);
    true
}


// --- `str::lines`, `trim`, `split_whitespace`, integer parsing ------------------------

/// `str::lines` from offset `i`: split at `\n`, dropping a `\r` just before
/// it; the text after the last `\n` is a line only when non-empty.
pub open spec fn rust_lines_from(s: Seq<char>, i: int) -> Seq<Seq<char>>
    decreases s.len() - i,
{
    if i < 0 || i >= s.len() {
        Seq::empty()
    } else {
        let j = next_nl(s, i);
        if j >= s.len() {
            seq![s.subrange(i, s.len() as int)]
        } else {
            proof {
                lemma_next_nl_bounds(s, i);
            }
            let e = if j > i && s[j - 1] == '\r' {
                j - 1
            } else {
                j
            };
            seq![s.subrange(i, e)] + rust_lines_from(s, j + 1)
        }
    }
}

/// `str::lines`.
pub open spec fn rust_lines(s: Seq<char>) -> Seq<Seq<char>> {
    rust_lines_from(s, 0)
}

/// The spans (into `s`) of `str::lines(s)`.
pub fn rust_line_spans(s: &[char]) -> (r: Vec<(usize, usize)>)
    ensures
        r@.len() == rust_lines(s@).len(),
        forall|k: int|
            0 <= k < r@.len() ==> (#[trigger] r@[k]).0 <= r@[k].1 <= s@.len() && s@.subrange(
                r@[k].0 as int,
                r@[k].1 as int,
            ) == rust_lines(s@)[k],
{
    let mut r: Vec<(usize, usize)> = Vec::new();
    let mut i: usize = 0;
    let ghost mut acc: Seq<Seq<char>> = Seq::empty();
    while i < s.len()
        invariant
            i <= s@.len(),
            acc + rust_lines_from(s@, i as int) == rust_lines(s@),
            r@.len() == acc.len(),
            forall|k: int|
                0 <= k < r@.len() ==> (#[trigger] r@[k]).0 <= r@[k].1 <= s@.len() && s@.subrange(
                    r@[k].0 as int,
                    r@[k].1 as int,
                ) == acc[k],
        decreases s@.len() - i,
    {
        proof {
            lemma_next_nl_bounds(s@, i as int);
        }
        let j = find_nl(s, i);
        if j >= s.len() {
            r.push((i, s.len()));
            proof {
                acc = acc.push(s@.subrange(i as int, s@.len() as int));
            }
            assert(acc == rust_lines(s@));
            return r;
        }
        let e = if j > i && s[j - 1] == '\r' {
            j - 1
        } else {
            j
        };
        r.push((i, e));
        proof {
            acc = acc.push(s@.subrange(i as int, e as int));
            assert(rust_lines_from(s@, i as int) == seq![s@.subrange(i as int, e as int)]
                + rust_lines_from(s@, j + 1));
        }
        i = j + 1;
    }
    assert(acc == rust_lines(s@));
    r
}

/// The first index at or after `i` that is not whitespace (or `s.len()`).
pub open spec fn skip_ws(s: Seq<char>, i: int) -> int
    decreases s.len() - i,
{
    if i < 0 {
        skip_ws(s, 0)
    } else if i >= s.len() {
        s.len() as int
    } else if is_ws(s[i]) {
        skip_ws(s, i + 1)
    } else {
        i
    }
}

/// The first index at or after `i` that is whitespace (or `s.len()`).
pub open spec fn skip_non_ws(s: Seq<char>, i: int) -> int
    decreases s.len() - i,
{
    if i < 0 {
        skip_non_ws(s, 0)
    } else if i >= s.len() {
        s.len() as int
    } else if !is_ws(s[i]) {
        skip_non_ws(s, i + 1)
    } else {
        i
    }
}

/// The index just past the last non-whitespace character before `j`.
pub open spec fn trim_end_at(s: Seq<char>, j: int) -> int
    decreases j,
{
    if j <= 0 {
        0
    } else if j > s.len() {
        trim_end_at(s, s.len() as int)
    } else if is_ws(s[j - 1]) {
        trim_end_at(s, j - 1)
    } else {
        j
    }
}

/// `str::trim`.
pub open spec fn trim(s: Seq<char>) -> Seq<char> {
    let a = skip_ws(s, 0);
    if a >= s.len() {
        Seq::empty()
    } else {
        s.subrange(a, trim_end_at(s, s.len() as int))
    }
}

/// `str::split_whitespace` from offset `i`.
pub open spec fn words_from(s: Seq<char>, i: int) -> Seq<Seq<char>>
    decreases s.len() - i, 1int,
{
    let a = skip_ws(s, i);
    if i < 0 || a >= s.len() {
        Seq::empty()
    } else {
        proof {
            lemma_skip(s, i);
            lemma_skip(s, a);
        }
        seq![s.subrange(a, skip_non_ws(s, a))] + words_from(s, skip_non_ws(s, a))
    }
}

/// `str::split_whitespace`.
pub open spec fn words(s: Seq<char>) -> Seq<Seq<char>> {
    words_from(s, 0)
}

pub proof fn lemma_skip(s: Seq<char>, i: int)
    requires
        0 <= i,
    ensures
        i <= skip_ws(s, i) || (i > s.len() && skip_ws(s, i) == s.len()),
        skip_ws(s, i) <= s.len(),
        i < s.len() ==> i <= skip_ws(s, i),
        i < s.len() ==> i <= skip_non_ws(s, i),
        skip_ws(s, i) < s.len() ==> !is_ws(s[skip_ws(s, i)]),
        skip_ws(s, i) < s.len() ==> skip_non_ws(s, skip_ws(s, i)) > skip_ws(s, i),
        skip_non_ws(s, i) <= s.len(),
    decreases s.len() - i,
{
    if i < s.len() {
        lemma_skip(s, i + 1);
    }
}

fn skip_ws_exec(s: &[char], i: usize) -> (r: usize)
    requires
        i <= s@.len(),
    ensures
        r == skip_ws(s@, i as int),
        i <= r <= s@.len(),
{
    let mut k = i;
    while k < s.len() && is_whitespace(s[k])
        invariant
            i <= k <= s@.len(),
            skip_ws(s@, k as int) == skip_ws(s@, i as int),
        decreases s.len() - k,
    {
        k = k + 1;
    }
    k
}

fn skip_non_ws_exec(s: &[char], i: usize) -> (r: usize)
    requires
        i <= s@.len(),
    ensures
        r == skip_non_ws(s@, i as int),
        i <= r <= s@.len(),
{
    let mut k = i;
    while k < s.len() && !is_whitespace(s[k])
        invariant
            i <= k <= s@.len(),
            skip_non_ws(s@, k as int) == skip_non_ws(s@, i as int),
        decreases s.len() - k,
    {
        k = k + 1;
    }
    k
}

/// The spans of `split_whitespace(s[from..to])`, as offsets into `s`.
pub fn word_spans(s: &[char], from: usize, to: usize) -> (r: Vec<(usize, usize)>)
    requires
        from <= to <= s@.len(),
    ensures
        r@.len() == words(s@.subrange(from as int, to as int)).len(),
        forall|k: int|
            0 <= k < r@.len() ==> from <= (#[trigger] r@[k]).0 <= r@[k].1 <= to && s@.subrange(
                r@[k].0 as int,
                r@[k].1 as int,
            ) == words(s@.subrange(from as int, to as int))[k],
{
    let v = slice_range(s, from, to);
    let ghost t = v@;
    let mut r: Vec<(usize, usize)> = Vec::new();
    let mut i: usize = 0;
    let ghost mut acc: Seq<Seq<char>> = Seq::empty();
    loop
        invariant
            from <= to <= s@.len(),
            v@ == t,
            t == s@.subrange(from as int, to as int),
            i <= t.len(),
            acc + words_from(t, i as int) == words(t),
            r@.len() == acc.len(),
            forall|k: int|
                0 <= k < r@.len() ==> from <= (#[trigger] r@[k]).0 <= r@[k].1 <= to && s@.subrange(
                    r@[k].0 as int,
                    r@[k].1 as int,
                ) == acc[k],
        decreases t.len() - i,
    {
        let a = skip_ws_exec(v.as_slice(), i);
        if a >= v.len() {
            assert(words_from(t, i as int) == Seq::<Seq<char>>::empty());
            assert(acc + Seq::<Seq<char>>::empty() == acc);
            return r;
        }
        proof {
            lemma_skip(t, i as int);
            lemma_skip(t, a as int);
        }
        let b = skip_non_ws_exec(v.as_slice(), a);
        r.push((from + a, from + b));
        proof {
            assert(s@.subrange(from + a, from + b) == t.subrange(a as int, b as int));
            acc = acc.push(t.subrange(a as int, b as int));
            assert(words_from(t, i as int) == seq![t.subrange(a as int, b as int)] + words_from(
                t,
                b as int,
            ));
        }
        i = b;
    }
}

/// A copy of `s[from..to]`.
pub fn slice_range(s: &[char], from: usize, to: usize) -> (v: Vec<char>)
    requires
        from <= to <= s@.len(),
    ensures
        v@ == s@.subrange(from as int, to as int),
{
    let mut v: Vec<char> = Vec::new();
    let mut k = from;
    while k < to
        invariant
            from <= k <= to <= s@.len(),
            v@ == s@.subrange(from as int, k as int),
        decreases to - k,
    {
        v.push(s[k]);
        assert(s@.subrange(from as int, k + 1) == s@.subrange(from as int, k as int).push(
            s@[k as int],
        ));
        k = k + 1;
    }
    v
}

/// Whether every character of `s` is whitespace (`s.trim().is_empty()`).
pub open spec fn all_ws(s: Seq<char>) -> bool {
    skip_ws(s, 0) >= s.len()
}

pub fn is_blank(s: &[char], from: usize, to: usize) -> (b: bool)
    requires
        from <= to <= s@.len(),
    ensures
        b == all_ws(s@.subrange(from as int, to as int)),
{
    let v = slice_range(s, from, to);
    skip_ws_exec(v.as_slice(), 0) >= v.len()
}

/// The value of a decimal digit string (`None` when empty or when a
/// character is not a digit).
pub open spec fn digits_value(s: Seq<char>) -> Option<nat>
    decreases s.len(),
{
    if s.len() == 0 {
        None
    } else if !('0' <= s.last() <= '9') {
        None
    } else if s.len() == 1 {
        Some((s.last() as u32 - '0' as u32) as nat)
    } else {
        match digits_value(s.drop_last()) {
            Some(v) => Some(v * 10 + (s.last() as u32 - '0' as u32) as nat),
            None => None,
        }
    }
}

/// Rust's `FromStr` for an unsigned integer with maximum `max`: an optional
/// `+`, then one or more decimal digits, the value at most `max`.
pub open spec fn parse_unsigned(s: Seq<char>, max: nat) -> Option<nat> {
    let d = if s.len() > 0 && s[0] == '+' {
        s.drop_first()
    } else {
        s
    };
    match digits_value(d) {
        Some(v) => if v <= max {
            Some(v)
        } else {
            None
        },
        None => None,
    }
}

/// `s.parse::<u64>()` of `s[from..to]`, as `Option`.
pub fn parse_u64(s: &[char], from: usize, to: usize) -> (r: Option<u64>)
    requires
        from <= to <= s@.len(),
    ensures
        match r {
            Some(v) => parse_unsigned(s@.subrange(from as int, to as int), u64::MAX as nat) == Some(
                v as nat,
            ),
            None => parse_unsigned(s@.subrange(from as int, to as int), u64::MAX as nat) is None,
        },
{
    let ghost t = s@.subrange(from as int, to as int);
    let a: usize = if from < to && s[from] == '+' {
        from + 1
    } else {
        from
    };
    let ghost d = s@.subrange(a as int, to as int);
    assert(d == (if t.len() > 0 && t[0] == '+' {
        t.drop_first()
    } else {
        t
    }));
    if a >= to {
        return None;
    }
    let mut v: u64 = 0;
    let mut k = a;
    while k < to
        invariant
            from <= a < to <= s@.len(),
            a <= k <= to,
            d == s@.subrange(a as int, to as int),
            t == s@.subrange(from as int, to as int),
            parse_unsigned(t, u64::MAX as nat) == (match digits_value(d) {
                Some(x) => if x <= u64::MAX {
                    Some(x)
                } else {
                    None
                },
                None => None,
            }),
            k > a ==> digits_value(s@.subrange(a as int, k as int)) == Some(v as nat),
        decreases to - k,
    {
        let c = s[k];
        assert(s@.subrange(a as int, k + 1).drop_last() == s@.subrange(a as int, k as int));
        assert(s@.subrange(a as int, k + 1).last() == c);
        if !('0' <= c && c <= '9') {
            proof {
                assert(s@.subrange(a as int, to as int).subrange(0, k - a + 1) == s@.subrange(
                    a as int,
                    k + 1,
                ));
                lemma_digits_none_extends(s@.subrange(a as int, to as int), (k - a + 1) as int);
            }
            return None;
        }
        let dg = (c as u32 - '0' as u32) as u64;
        let ghost nv: int = if k > a {
            v * 10 + dg
        } else {
            dg as int
        };
        assert(digits_value(s@.subrange(a as int, k + 1)) == Some(nv as nat));
        if k > a && v > (u64::MAX - dg) / 10 {
            proof {
                assert(s@.subrange(a as int, to as int).subrange(0, k - a + 1) == s@.subrange(
                    a as int,
                    k + 1,
                ));
                assert(v * 10 + dg > u64::MAX) by (nonlinear_arith)
                    requires
                        v > (u64::MAX - dg) / 10,
                        dg <= 9,
                ;
                lemma_digits_big_extends(s@.subrange(a as int, to as int), (k - a + 1) as int);
            }
            return None;
        }
        if k > a {
            assert(v * 10 + dg <= u64::MAX) by (nonlinear_arith)
                requires
                    v <= (u64::MAX - dg) / 10,
                    dg <= 9,
            ;
            v = v * 10 + dg;
        } else {
            v = dg;
        }
        k = k + 1;
    }
    assert(s@.subrange(a as int, to as int) == d);
    Some(v)
}

pub proof fn lemma_digits_none_extends(s: Seq<char>, k: int)
    requires
        0 < k <= s.len(),
        digits_value(s.subrange(0, k)) is None,
    ensures
        digits_value(s) is None,
    decreases s.len(),
{
    if k < s.len() {
        assert(s.drop_last().subrange(0, k) == s.subrange(0, k));
        lemma_digits_none_extends(s.drop_last(), k);
    } else {
        assert(s.subrange(0, k) == s);
    }
}

pub proof fn lemma_digits_value_grows(s: Seq<char>, k: int)
    requires
        0 < k <= s.len(),
        digits_value(s) is Some,
    ensures
        digits_value(s.subrange(0, k)) is Some,
        digits_value(s)->0 >= digits_value(s.subrange(0, k))->0,
        k < s.len() ==> digits_value(s)->0 >= digits_value(s.subrange(0, k))->0 * 10,
    decreases s.len(),
{
    if k < s.len() {
        assert(s.drop_last().subrange(0, k) == s.subrange(0, k));
        if s.len() > 1 {
            lemma_digits_value_grows(s.drop_last(), k);
        }
    } else {
        assert(s.subrange(0, k) == s);
    }
}

pub proof fn lemma_digits_big_extends(s: Seq<char>, k: int)
    requires
        0 < k <= s.len(),
        digits_value(s.subrange(0, k)) is Some ==> digits_value(s.subrange(0, k))->0 > u64::MAX,
    ensures
        digits_value(s) is Some ==> digits_value(s)->0 > u64::MAX,
{
    if digits_value(s) is Some {
        lemma_digits_value_grows(s, k);
    }
}


// --- Searching and splitting --------------------------------------------------------

/// The first index `i >= from` at which `pat` occurs in `s`.
pub open spec fn find_from(s: Seq<char>, pat: Seq<char>, from: int) -> Option<int>
    decreases s.len() + 1 - from,
{
    if from < 0 || from + pat.len() > s.len() {
        None
    } else if s.subrange(from, from + pat.len()) == pat {
        Some(from)
    } else {
        find_from(s, pat, from + 1)
    }
}

/// `str::find`.
pub open spec fn find(s: Seq<char>, pat: Seq<char>) -> Option<int> {
    find_from(s, pat, 0)
}

/// The last index `i < upto` (with `i + pat.len() <= s.len()`) at which `pat`
/// occurs in `s`.
pub open spec fn rfind_before(s: Seq<char>, pat: Seq<char>, upto: int) -> Option<int>
    decreases upto,
{
    if upto <= 0 {
        None
    } else if upto - 1 + pat.len() <= s.len() && s.subrange(upto - 1, upto - 1 + pat.len())
        == pat {
        Some(upto - 1)
    } else {
        rfind_before(s, pat, upto - 1)
    }
}

/// `str::rfind`.
pub open spec fn rfind(s: Seq<char>, pat: Seq<char>) -> Option<int> {
    rfind_before(s, pat, s.len() + 1int)
}

pub proof fn lemma_find_from(s: Seq<char>, pat: Seq<char>, from: int)
    ensures
        find_from(s, pat, from) matches Some(i) ==> from <= i && 0 <= i && i + pat.len() <= s.len()
            && s.subrange(i, i + pat.len()) == pat,
    decreases s.len() + 1 - from,
{
    if 0 <= from && from + pat.len() <= s.len() && s.subrange(from, from + pat.len()) != pat {
        lemma_find_from(s, pat, from + 1);
    }
}

pub proof fn lemma_rfind_before(s: Seq<char>, pat: Seq<char>, upto: int)
    ensures
        rfind_before(s, pat, upto) matches Some(i) ==> i < upto && 0 <= i && i + pat.len()
            <= s.len() && s.subrange(i, i + pat.len()) == pat,
    decreases upto,
{
    if upto > 0 && !(upto - 1 + pat.len() <= s.len() && s.subrange(upto - 1, upto - 1 + pat.len())
        == pat) {
        lemma_rfind_before(s, pat, upto - 1);
    }
}

/// `find_from` over `s`.
pub fn find_from_exec(s: &[char], pat: &[char], from: usize) -> (r: Option<usize>)
    ensures
        match r {
            Some(i) => find_from(s@, pat@, from as int) == Some(i as int),
            None => find_from(s@, pat@, from as int) is None,
        },
{
    if from > s.len() {
        return None;
    }
    let mut i = from;
    loop
        invariant
            from <= i <= s@.len(),
            find_from(s@, pat@, from as int) == find_from(s@, pat@, i as int),
        decreases s@.len() - i,
    {
        if pat.len() > s.len() - i {
            return None;
        }
        if starts_with_at(s, i, pat) {
            return Some(i);
        }
        if i == s.len() {
            assert(s@.subrange(i as int, i as int) == pat@);
            return None;
        }
        i = i + 1;
    }
}

/// `rfind` over `s`.
pub fn rfind_exec(s: &[char], pat: &[char]) -> (r: Option<usize>)
    ensures
        match r {
            Some(i) => rfind(s@, pat@) == Some(i as int),
            None => rfind(s@, pat@) is None,
        },
{
    let mut upto = s.len();
    if pat.len() == 0 {
        assert(s@.subrange(s@.len() as int, s@.len() as int) == pat@);
        return Some(s.len());
    }
    while upto > 0
        invariant
            upto <= s@.len(),
            pat@.len() > 0,
            rfind(s@, pat@) == rfind_before(s@, pat@, upto as int),
        decreases upto,
    {
        if pat.len() <= s.len() - (upto - 1) && starts_with_at(s, upto - 1, pat) {
            return Some(upto - 1);
        }
        upto = upto - 1;
    }
    None
}

/// `s.split(c)`: the pieces between occurrences of `c` (always at least one).
pub open spec fn split_char_from(s: Seq<char>, c: char, i: int) -> Seq<Seq<char>>
    decreases s.len() - i,
{
    let j = next_of(s, c, i);
    if i < 0 || j >= s.len() {
        seq![s.subrange(i, s.len() as int)]
    } else {
        proof {
            lemma_next_of(s, c, i);
        }
        seq![s.subrange(i, j)] + split_char_from(s, c, j + 1)
    }
}

pub open spec fn split_char(s: Seq<char>, c: char) -> Seq<Seq<char>> {
    split_char_from(s, c, 0)
}

/// The first index at or after `i` holding `c` (or `s.len()`).
pub open spec fn next_of(s: Seq<char>, c: char, i: int) -> int
    decreases s.len() - i,
{
    if i < 0 {
        next_of(s, c, 0)
    } else if i >= s.len() {
        s.len() as int
    } else if s[i] == c {
        i
    } else {
        next_of(s, c, i + 1)
    }
}

pub proof fn lemma_next_of(s: Seq<char>, c: char, i: int)
    requires
        0 <= i,
    ensures
        i <= s.len() ==> i <= next_of(s, c, i) <= s.len(),
        i > s.len() ==> next_of(s, c, i) == s.len(),
        next_of(s, c, i) < s.len() ==> s[next_of(s, c, i)] == c,
        forall|k: int| i <= k < next_of(s, c, i) ==> s[k] != c,
    decreases s.len() - i,
{
    if i < s.len() && s[i] != c {
        lemma_next_of(s, c, i + 1);
    }
}

pub fn next_of_exec(s: &[char], c: char, i: usize) -> (j: usize)
    requires
        i <= s@.len(),
    ensures
        j == next_of(s@, c, i as int),
        i <= j <= s@.len(),
{
    let mut j = i;
    while j < s.len() && s[j] != c
        invariant
            i <= j <= s@.len(),
            next_of(s@, c, j as int) == next_of(s@, c, i as int),
        decreases s.len() - j,
    {
        j = j + 1;
    }
    j
}

/// The spans of `s[from..to].split(c)`, as offsets into `s`.
pub fn split_char_spans(s: &[char], from: usize, to: usize, c: char) -> (r: Vec<(usize, usize)>)
    requires
        from <= to <= s@.len(),
    ensures
        r@.len() == split_char(s@.subrange(from as int, to as int), c).len(),
        forall|k: int|
            0 <= k < r@.len() ==> from <= (#[trigger] r@[k]).0 <= r@[k].1 <= to && s@.subrange(
                r@[k].0 as int,
                r@[k].1 as int,
            ) == split_char(s@.subrange(from as int, to as int), c)[k],
{
    let v = slice_range(s, from, to);
    let ghost t = v@;
    let mut r: Vec<(usize, usize)> = Vec::new();
    let mut i: usize = 0;
    let ghost mut acc: Seq<Seq<char>> = Seq::empty();
    loop
        invariant
            from <= to <= s@.len(),
            v@ == t,
            t == s@.subrange(from as int, to as int),
            i <= t.len(),
            acc + split_char_from(t, c, i as int) == split_char(t, c),
            r@.len() == acc.len(),
            forall|k: int|
                0 <= k < r@.len() ==> from <= (#[trigger] r@[k]).0 <= r@[k].1 <= to && s@.subrange(
                    r@[k].0 as int,
                    r@[k].1 as int,
                ) == acc[k],
        decreases t.len() - i,
    {
        let j = next_of_exec(v.as_slice(), c, i);
        proof {
            lemma_next_of(t, c, i as int);
            assert(s@.subrange(from + i, from + j) == t.subrange(i as int, j as int));
        }
        r.push((from + i, from + j));
        proof {
            acc = acc.push(t.subrange(i as int, j as int));
        }
        if j >= v.len() {
            assert(split_char_from(t, c, i as int) == seq![t.subrange(i as int, t.len() as int)]);
            assert(acc == split_char(t, c));
            return r;
        }
        i = j + 1;
    }
}

/// `str::split_once(c)`.
pub open spec fn split_once(s: Seq<char>, c: char) -> Option<(Seq<char>, Seq<char>)> {
    let j = next_of(s, c, 0);
    if j >= s.len() {
        None
    } else {
        Some((s.subrange(0, j), s.subrange(j + 1, s.len() as int)))
    }
}

/// ASCII lowercase of one character.
pub open spec fn lower(c: char) -> char {
    if 'A' <= c <= 'Z' {
        ((c as u32) + 32) as char
    } else {
        c
    }
}

/// `str::to_ascii_lowercase`.
pub open spec fn ascii_lower(s: Seq<char>) -> Seq<char> {
    Seq::new(s.len(), |i: int| lower(s[i]))
}

pub fn ascii_lower_range(s: &[char], from: usize, to: usize) -> (r: Vec<char>)
    requires
        from <= to <= s@.len(),
    ensures
        r@ == ascii_lower(s@.subrange(from as int, to as int)),
{
    let mut r: Vec<char> = Vec::new();
    let mut k = from;
    while k < to
        invariant
            from <= k <= to <= s@.len(),
            r@ == ascii_lower(s@.subrange(from as int, k as int)),
        decreases to - k,
    {
        let c = s[k];
        let l = if 'A' <= c && c <= 'Z' {
            char_from_u32_ascii((c as u32) + 32)
        } else {
            c
        };
        r.push(l);
        assert(r@ =~= ascii_lower(s@.subrange(from as int, k + 1)));
        k = k + 1;
    }
    r
}

/// The character with the ASCII code `u`.
fn char_from_u32_ascii(u: u32) -> (c: char)
    requires
        u < 128,
    ensures
        c as u32 == u,
        c == u as char,
{
    let b = u as u8;
    b as char
}

/// A `usize` parsed as Rust's `FromStr` does.
pub open spec fn parse_usize_spec(s: Seq<char>) -> Option<usize> {
    match parse_unsigned(s, usize::MAX as nat) {
        Some(v) => Some(v as usize),
        None => None,
    }
}

pub fn parse_usize(s: &[char], from: usize, to: usize) -> (r: Option<usize>)
    requires
        from <= to <= s@.len(),
    ensures
        r == parse_usize_spec(s@.subrange(from as int, to as int)),
{
    match parse_u64(s, from, to) {
        Some(v) => {
            if v <= usize::MAX as u64 {
                Some(v as usize)
            } else {
                None
            }
        },
        None => None,
    }
}

/// The bounds of `trim(s)` when it is non-empty.
pub fn word_bounds(s: &[char]) -> (r: Option<(usize, usize)>)
    ensures
        match r {
            Some((p, q)) => p <= q <= s@.len() && trim(s@).len() > 0 && s@.subrange(p as int, q as int)
                == trim(s@),
            None => trim(s@).len() == 0,
        },
{
    let mut p: usize = 0;
    while p < s.len() && is_whitespace(s[p])
        invariant
            p <= s@.len(),
            skip_ws(s@, p as int) == skip_ws(s@, 0),
        decreases s.len() - p,
    {
        p = p + 1;
    }
    if p >= s.len() {
        return None;
    }
    let mut q: usize = s.len();
    while q > 0 && is_whitespace(s[q - 1])
        invariant
            q <= s@.len(),
            trim_end_at(s@, q as int) == trim_end_at(s@, s@.len() as int),
        decreases q,
    {
        q = q - 1;
    }
    proof {
        lemma_trim_end_ge(s@, p as int);
    }
    assert(q == trim_end_at(s@, s@.len() as int));
    Some((p, q))
}

pub proof fn lemma_trim_end_ge(s: Seq<char>, p: int)
    requires
        0 <= p < s.len(),
        !is_ws(s[p]),
    ensures
        trim_end_at(s, s.len() as int) > p,
    decreases s.len() - p,
{
    lemma_trim_end_ge_at(s, p, s.len() as int);
}

pub proof fn lemma_trim_end_ge_at(s: Seq<char>, p: int, j: int)
    requires
        0 <= p < j <= s.len(),
        !is_ws(s[p]),
    ensures
        trim_end_at(s, j) > p,
    decreases j,
{
    if is_ws(s[j - 1]) {
        lemma_trim_end_ge_at(s, p, j - 1);
    }
}

/// `s[from..to].trim()`.
pub fn trimmed(s: &[char], from: usize, to: usize) -> (r: Vec<char>)
    requires
        from <= to <= s@.len(),
    ensures
        r@ == trim(s@.subrange(from as int, to as int)),
{
    let v = slice_range(s, from, to);
    match word_bounds(v.as_slice()) {
        Some((p, q)) => slice_range(v.as_slice(), p, q),
        None => {
            let r: Vec<char> = Vec::new();
            assert(r@ == trim(v@));
            r
        },
    }
}

/// Whether `a` and `b` hold the same characters.
pub fn seq_eq(a: &[char], b: &[char]) -> (r: bool)
    ensures
        r == (a@ == b@),
{
    if a.len() != b.len() {
        return false;
    }
    let mut k: usize = 0;
    while k < a.len()
        invariant
            a@.len() == b@.len(),
            k <= a@.len(),
            forall|j: int| 0 <= j < k ==> a@[j] == b@[j],
        decreases a.len() - k,
    {
        if a[k] != b[k] {
            return false;
        }
        k = k + 1;
    }
    assert(a@ == b@);
    true
}

/// Whether `a` holds exactly the characters of `lit`.
pub fn eq_lit(a: &[char], lit: &str) -> (r: bool)
    ensures
        r == (a@ == lit@),
{
    let l = chars_of(lit);
    seq_eq(a, l.as_slice())
}

// --- Bytes ---------------------------------------------------------------------------

/// The first index at or after `i` holding byte `b` (or `s.len()`).
pub open spec fn byte_pos(s: Seq<u8>, b: u8, i: int) -> int
    decreases s.len() - i,
{
    if i < 0 {
        byte_pos(s, b, 0)
    } else if i >= s.len() {
        s.len() as int
    } else if s[i] == b {
        i
    } else {
        byte_pos(s, b, i + 1)
    }
}

pub proof fn lemma_byte_pos(s: Seq<u8>, b: u8, i: int)
    requires
        0 <= i,
    ensures
        i <= s.len() ==> i <= byte_pos(s, b, i) <= s.len(),
        i > s.len() ==> byte_pos(s, b, i) == s.len(),
        byte_pos(s, b, i) < s.len() ==> s[byte_pos(s, b, i)] == b,
        forall|k: int| i <= k < byte_pos(s, b, i) ==> s[k] != b,
    decreases s.len() - i,
{
    if i < s.len() && s[i] != b {
        lemma_byte_pos(s, b, i + 1);
    }
}

pub fn byte_pos_exec(s: &[u8], b: u8, i: usize) -> (j: usize)
    requires
        i <= s@.len(),
    ensures
        j == byte_pos(s@, b, i as int),
        i <= j <= s@.len(),
{
    let mut j = i;
    while j < s.len() && s[j] != b
        invariant
            i <= j <= s@.len(),
            byte_pos(s@, b, j as int) == byte_pos(s@, b, i as int),
        decreases s.len() - j,
    {
        j = j + 1;
    }
    j
}

/// `s[from..to]` as a vector.
pub fn bytes_range(s: &[u8], from: usize, to: usize) -> (v: Vec<u8>)
    requires
        from <= to <= s@.len(),
    ensures
        v@ == s@.subrange(from as int, to as int),
{
    let mut v: Vec<u8> = Vec::new();
    let mut k = from;
    while k < to
        invariant
            from <= k <= to <= s@.len(),
            v@ == s@.subrange(from as int, k as int),
        decreases to - k,
    {
        v.push(s[k]);
        k = k + 1;
    }
    v
}


// --- The text between newlines ----------------------------------------------------------

/// The pieces of `s` between `\n`s, from offset `i` on: the text up to each
/// `\n`, then what follows the last one (empty after a final `\n`).
pub open spec fn nl_split_from(s: Seq<char>, i: int) -> Seq<Seq<char>>
    decreases s.len() - i,
{
    let j = next_nl(s, i);
    if i < 0 || i > s.len() {
        Seq::empty()
    } else if j < s.len() {
        proof {
            lemma_next_nl_bounds(s, i);
        }
        seq![s.subrange(i, j)] + nl_split_from(s, j + 1)
    } else {
        proof {
            lemma_next_nl_bounds(s, i);
        }
        seq![s.subrange(i, s.len() as int)]
    }
}

/// The lines of `s` as `\n` separates them: line `k` of the text is
/// `nl_split(s)[k]`, and there is one more line than there are `\n`s.
pub open spec fn nl_split(s: Seq<char>) -> Seq<Seq<char>> {
    nl_split_from(s, 0)
}

/// `next_nl` is the first `\n` at or after `i`.
pub proof fn lemma_next_nl_is(s: Seq<char>, i: int, k: int)
    requires
        0 <= i <= k <= s.len(),
        k == s.len() || s[k] == '\n',
        forall|m: int| i <= m < k ==> s[m] != '\n',
    ensures
        next_nl(s, i) == k,
    decreases k - i,
{
    if i < k {
        lemma_next_nl_is(s, i + 1, k);
    }
}

/// Splitting `a`, a `\n` and a newline-free `b` gives the pieces of `a`, then `b`.
pub proof fn lemma_nl_split_append(a: Seq<char>, b: Seq<char>, i: int)
    requires
        0 <= i <= a.len(),
        forall|m: int| 0 <= m < b.len() ==> b[m] != '\n',
    ensures
        nl_split_from(a + seq!['\n'] + b, i) == nl_split_from(a, i).push(b),
    decreases a.len() - i,
{
    let s = a + seq!['\n'] + b;
    lemma_next_nl_bounds(a, i);
    let ja = next_nl(a, i);
    if ja < a.len() {
        lemma_next_nl_is(s, i, ja);
        lemma_nl_split_append(a, b, ja + 1);
        assert(s.subrange(i, ja) == a.subrange(i, ja));
        assert(nl_split_from(s, i) == seq![a.subrange(i, ja)] + nl_split_from(s, ja + 1));
        assert(nl_split_from(a, i) == seq![a.subrange(i, ja)] + nl_split_from(a, ja + 1));
    } else {
        lemma_next_nl_is(s, i, a.len() as int);
        let k = a.len() as int + 1;
        lemma_next_nl_is(s, k, s.len() as int);
        assert(s.subrange(k, s.len() as int) == b);
        assert(s.subrange(i, a.len() as int) == a.subrange(i, a.len() as int));
        assert(nl_split_from(s, k) == seq![b]);
    }
}

/// Every line span of `s` from `i` on lies in `s` and holds no `\n`; there is
/// at least one.
pub proof fn lemma_line_spans_from(s: Seq<char>, i: int)
    requires
        0 <= i <= s.len(),
    ensures
        line_spans_from(s, i).len() >= 1,
        forall|q: int|
            0 <= q < line_spans_from(s, i).len() ==> {
                let sp = #[trigger] line_spans_from(s, i)[q];
                &&& i <= sp.0 <= sp.1 <= s.len()
                &&& forall|k: int| sp.0 <= k < sp.1 ==> s[k] != '\n'
            },
    decreases s.len() - i,
{
    lemma_next_nl_bounds(s, i);
    let j = next_nl(s, i);
    if !(j >= s.len() || i >= s.len()) {
        lemma_line_spans_from(s, j + 1);
        let rest = line_spans_from(s, j + 1);
        assert forall|q: int| 0 <= q < line_spans_from(s, i).len() implies {
            let sp = #[trigger] line_spans_from(s, i)[q];
            &&& i <= sp.0 <= sp.1 <= s.len()
            &&& forall|k: int| sp.0 <= k < sp.1 ==> s[k] != '\n'
        } by {
            if q > 0 {
                assert(line_spans_from(s, i)[q] == rest[q - 1]);
            }
        }
    }
}

/// No line of `s` holds a `\n`.
pub proof fn lemma_line_content_no_nl(s: Seq<char>, k: int)
    requires
        0 <= k < line_spans(s).len(),
    ensures
        forall|m: int| 0 <= m < line_content(s, k).len() ==> line_content(s, k)[m] != '\n',
        line_spans(s).len() >= 1,
{
    lemma_line_spans_from(s, 0);
    let sp = line_spans(s)[k];
    assert(sp.0 <= sp.1 <= s.len());
}


proof fn lemma_nl_count_gap(s: Seq<char>, i: int, j: int)
    requires
        0 <= i <= j <= s.len(),
        forall|m: int| i <= m < j ==> s[m] != '\n',
    ensures
        nl_count(s, j) == nl_count(s, i),
    decreases j - i,
{
    if i < j {
        lemma_nl_count_gap(s, i, j - 1);
    }
}

/// There is one more `\n`-separated line from `i` on than there are `\n`s
/// after `i`.
pub proof fn lemma_nl_split_count(s: Seq<char>, i: int)
    requires
        0 <= i <= s.len(),
    ensures
        nl_split_from(s, i).len() == nl_count(s, s.len() as int) - nl_count(s, i) + 1,
        line_spans_from(s, i).len() == nl_count(s, s.len() as int) - nl_count(s, i) + 1,
    decreases s.len() - i,
{
    lemma_next_nl_bounds(s, i);
    let j = next_nl(s, i);
    lemma_nl_count_gap(s, i, j);
    if j < s.len() {
        lemma_nl_split_count(s, j + 1);
        assert(nl_count(s, j + 1) == nl_count(s, j) + 1);
    }
}

} // verus!
