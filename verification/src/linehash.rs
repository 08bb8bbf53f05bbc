//! Line-hash mode: line-oriented, dialect-agnostic reads and anchors.
//!
//! This mode does not parse — it works on raw text, with the crate's one line
//! model: lines break at `\n`, a line's content excludes its terminator (so
//! LF vs CRLF does not spuriously drift a line, and a lone `\r` is not a
//! break), and a trailing newline shows as an **empty final line**. The
//! file-level hash still covers the whole verbatim byte stream, so any
//! line-ending change is caught there.

use vstd::prelude::*;
use vstd::string::StringExecFns;
use vstd::utf8::encode_utf8;

use crate::hash::{anchor_hash, anchor_hash_spec, file_hash, file_hash_spec};
use crate::text::{chars_of, line_content, line_spans, line_table, push_char, string_of_range};

verus! {

/// The decimal digit `d < 10`.
pub open spec fn digit_char(d: nat) -> char {
    (('0' as nat) + d) as char
}

/// The decimal numeral of `n`.
pub open spec fn decimal(n: nat) -> Seq<char>
    decreases n,
{
    if n < 10 {
        seq![digit_char(n)]
    } else {
        decimal(n / 10).push(digit_char(n % 10))
    }
}

/// `n` in decimal.
pub fn decimal_string(n: usize) -> (s: String)
    ensures
        s@ == decimal(n as nat),
    decreases n,
{
    let d: u8 = (n % 10) as u8;
    let c = (48 + d) as char;
    if n < 10 {
        let mut s = String::new();
        push_char(&mut s, c);
        s
    } else {
        let mut s = decimal_string(n / 10);
        push_char(&mut s, c);
        s
    }
}

/// One rendered line: `N:hash|content` and a newline.
pub open spec fn render_line(n: nat, content: Seq<char>) -> Seq<char> {
    decimal(n) + seq![':'] + anchor_hash_spec(encode_utf8(content)) + seq!['|'] + content + seq![
        '\n',
    ]
}

/// The rendered lines `1..=k` of `src`.
pub open spec fn render_lines(src: Seq<char>, k: int) -> Seq<char>
    decreases k,
{
    if k <= 0 {
        Seq::empty()
    } else {
        render_lines(src, k - 1) + render_line(k as nat, line_content(src, k - 1))
    }
}

/// The Line-hash read of `source` shown as `path`: a `[path#FILEHASH]`
/// header, then one `N:hash|content` line per source line (1-based `N`).
pub open spec fn read_spec(path: Seq<char>, source: Seq<char>) -> Seq<char> {
    seq!['['] + path + seq!['#'] + file_hash_spec(encode_utf8(source)) + seq![']', '\n']
        + render_lines(source, line_spans(source).len() as int)
}

/// Render a file in the Line-hash mode read format: a `[path#FILEHASH]`
/// header followed by one `N:hash|content` line per source line. The
/// per-line hash anchors that line for a later edit; the file-level hash in
/// the header guards the whole snapshot against drift.
pub fn read(path_display: &str, source: &str) -> (r: String)
    ensures
        r@ == read_spec(path_display@, source@),
{
    let mut out = String::new();
    push_char(&mut out, '[');
    out.append(path_display);
    push_char(&mut out, '#');
    let fh = file_hash(source.as_bytes());
    out.append(fh.as_str());
    push_char(&mut out, ']');
    push_char(&mut out, '\n');
    let ghost head = out@;
    assert(head == seq!['['] + path_display@ + seq!['#'] + file_hash_spec(encode_utf8(source@))
        + seq![']', '\n']);
    let cs = chars_of(source);
    let spans = line_table(cs.as_slice());
    let mut k: usize = 0;
    while k < spans.len()
        invariant
            cs@ == source@,
            spans@.len() == line_spans(cs@).len(),
            forall|q: int|
                0 <= q < spans@.len() ==> (#[trigger] spans@[q]).0 == line_spans(cs@)[q].0
                    && spans@[q].1 == line_spans(cs@)[q].1,
            forall|q: int| 0 <= q < spans@.len() ==> (#[trigger] spans@[q]).0 <= spans@[q].1 <= cs@.len(),
            k <= spans@.len(),
            out@ == head + render_lines(cs@, k as int),
        decreases spans.len() - k,
    {
        let (a, b) = spans[k];
        let content = string_of_range(cs.as_slice(), a, b);
        let h = anchor_hash(content.as_str().as_bytes());
        let num = decimal_string(k + 1);
        let ghost before = out@;
        out.append(num.as_str());
        push_char(&mut out, ':');
        out.append(h.as_str());
        push_char(&mut out, '|');
        out.append(content.as_str());
        push_char(&mut out, '\n');
        assert(content@ == line_content(cs@, k as int));
        assert(out@ == before + render_line((k + 1) as nat, line_content(cs@, k as int)));
        k = k + 1;
    }
    out
}

} // verus!
