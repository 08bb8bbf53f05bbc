//! A native, whole-buffer parinfer-style transform built on the library's own
//! toolset: the faithful Emacs indenter, the Nameless model, and the lexer.
//!
//! - **Paren mode**: parens are the source of truth. Balanced input is
//!   reindented by the formatter; unbalanced input is refused unchanged with a
//!   positioned diagnostic.
//! - **Indent mode**: indentation is the source of truth; close-parens are
//!   inferred from it over a tolerant token scan. Under Nameless, columns are
//!   read as they display. A supplied cursor locks the paren trail on its line.
//!
//! On success the output parses clean; on an unresolvable situation the input
//! is returned **completely unchanged** with `success = false` and a
//! positioned diagnostic.

use vstd::prelude::*;
use vstd::string::StringExecFns;

use crate::config::FormatConfig;
use crate::format::join_lines;
use crate::nameless::{saving_spec, Nameless};
use crate::reader::{
    byte_char_map, byte_to_char_map, chars_before, chars_before_exec, dialect_name, dialect_name_spec, first_fault, lexed,
    lx_first_fault, lx_lex, map_offset, Dialect, FaultKind, LexKind, LexTok,
};
use crate::text::{chars_of, line_numbers, nl_count, push_char, push_range, rust_line_spans, rust_lines, string_of_range};

verus! {

/// Which parinfer transform to run.
#[derive(Debug, Clone, Copy, PartialEq, Eq, Structural)]
pub enum Mode {
    /// Parens are the source of truth; indentation is corrected. Requires
    /// balanced input.
    Paren,
    /// Indentation is the source of truth; close-parens are inferred from it.
    Indent,
}

/// The mode a name stands for.
pub open spec fn mode_of(name: Seq<char>) -> Option<Mode> {
    if name == "paren"@ {
        Some(Mode::Paren)
    } else if name == "indent"@ {
        Some(Mode::Indent)
    } else {
        None
    }
}

impl Mode {
    /// Parse a mode name (`paren` / `indent`), or `None` if unrecognized.
    pub fn from_name(name: &str) -> (r: Option<Mode>)
        ensures
            r == mode_of(name@),
    {
        let cs = chars_of(name);
        if crate::text::eq_lit(cs.as_slice(), "paren") {
            Some(Mode::Paren)
        } else if crate::text::eq_lit(cs.as_slice(), "indent") {
            Some(Mode::Indent)
        } else {
            None
        }
    }
}

/// A 0-based text position: `line`, and `x` as a character offset within
/// that line.
#[derive(Debug, Clone, Copy, PartialEq, Eq, Structural)]
pub struct Cursor {
    /// 0-based line number.
    pub line: usize,
    /// 0-based character offset within the line.
    pub x: usize,
}

/// A positioned failure with 0-based line/`x`.
#[derive(Debug, Clone, PartialEq, Eq)]
pub struct Error {
    /// A short, stable error name (e.g. `unclosed-paren`).
    pub name: String,
    /// The human-readable message.
    pub message: String,
    /// 0-based line where the failure was detected.
    pub line: usize,
    /// 0-based character offset where the failure was detected.
    pub x: usize,
}

/// The result of a transform.
#[derive(Debug)]
pub struct Answer {
    /// The transformed text on success; the **unchanged input** on failure.
    pub text: String,
    /// Whether the transform produced a clean, balanced result.
    pub success: bool,
    /// The positioned failure, when `success` is false.
    pub error: Option<Error>,
    /// The cursor's post-transform position, if an input cursor was given.
    pub cursor: Option<Cursor>,
}

/// Everything a transform needs. `nameless` is the Emacs-Lisp-only overlay,
/// already built by the caller; `config` carries the indentation parameters.
pub struct Request<'a> {
    /// The transform to run.
    pub mode: Mode,
    /// The buffer text to transform.
    pub text: &'a str,
    /// The dialect the text is in.
    pub dialect: Dialect,
    /// Indentation parameters (tab width, body indent, …).
    pub config: FormatConfig,
    /// Nameless overlay (Emacs Lisp only), when enabled.
    pub nameless: Option<Nameless>,
    /// The input cursor: tracked to its post-transform position, and in
    /// indent mode it also locks the paren trail on its line.
    pub cursor: Option<Cursor>,
}

// --- Lines -----------------------------------------------------------------------

/// The ranges `[start, end)` (without the `\n`) of the lines from offset `i`
/// on: a trailing `\n` ends the last line rather than opening an empty one,
/// but an empty text is one empty line.
pub open spec fn line_ranges_from(s: Seq<char>, i: int) -> Seq<(int, int)>
    decreases s.len() - i,
{
    let j = crate::text::next_of(s, '\n', i);
    if i < 0 || i > s.len() {
        Seq::empty()
    } else if j < s.len() {
        proof {
            crate::text::lemma_next_of(s, '\n', i);
        }
        seq![(i, j)] + line_ranges_from(s, j + 1)
    } else if i < s.len() || s.len() == 0 {
        seq![(i, s.len() as int)]
    } else {
        Seq::empty()
    }
}

/// The line ranges of `s`.
pub open spec fn line_ranges(s: Seq<char>) -> Seq<(int, int)> {
    line_ranges_from(s, 0)
}

// --- Indent mode: what it computes -----------------------------------------------
//
// Offsets are character offsets into the text.

/// One lexeme with character offsets `[start, end)`.
#[derive(Debug, Clone, Copy, PartialEq, Eq, Structural)]
pub struct Tok {
    pub kind: LexKind,
    pub start: usize,
    pub end: usize,
}

/// A delimiter's closing class: `}` closes both `{` and `#{`.
#[derive(Debug, Clone, Copy, PartialEq, Eq, Structural)]
pub enum Delim {
    Round,
    Square,
    Curly,
}

/// The delimiter class of an opening or closing glyph.
pub open spec fn glyph_delim(c: char) -> Delim {
    if c == '[' || c == ']' {
        Delim::Square
    } else if c == '{' || c == '}' {
        Delim::Curly
    } else {
        Delim::Round
    }
}

/// The closing glyph of a delimiter class.
pub open spec fn close_glyph(d: Delim) -> char {
    match d {
        Delim::Round => ')',
        Delim::Square => ']',
        Delim::Curly => '}',
    }
}

/// One structural delimiter token on a line.
#[derive(Debug, Clone, Copy, PartialEq, Eq, Structural)]
pub struct DelimTok {
    pub start: usize,
    pub end: usize,
    pub delim: Delim,
    /// Whether it opens (`(`, `#(`, …) or closes.
    pub open: bool,
}

/// What indent mode reads: the text, its lexemes, the protected (cursor)
/// line, the tab width (at least 1) and the Nameless prefixes, if any.
pub struct IndentInput {
    pub src: Seq<char>,
    pub toks: Seq<Tok>,
    pub protect: Option<int>,
    pub tw: int,
    pub nl: Option<Seq<(Seq<char>, nat)>>,
}

/// The line holding offset `off`: the `\n`s before it, capped at the last
/// line.
pub open spec fn tok_line(src: Seq<char>, off: int) -> int {
    let n = nl_count(src, off) as int;
    let m = line_ranges(src).len() - 1;
    if n < m {
        n
    } else {
        m
    }
}

/// The delimiter glyph of a delimiter token: a closer's first character, an
/// opener's last.
pub open spec fn delim_glyph(src: Seq<char>, t: Tok) -> char {
    let k = if t.kind == LexKind::Close {
        t.start as int
    } else {
        t.end - 1
    };
    if 0 <= k < src.len() {
        src[k]
    } else {
        '('
    }
}

/// The delimiter a token is, if it is one.
pub open spec fn delim_tok(src: Seq<char>, t: Tok) -> Option<DelimTok> {
    match t.kind {
        LexKind::Open | LexKind::HashOpen => Some(
            DelimTok { start: t.start, end: t.end, delim: glyph_delim(delim_glyph(src, t)), open: true },
        ),
        LexKind::Close => Some(
            DelimTok { start: t.start, end: t.end, delim: glyph_delim(delim_glyph(src, t)), open: false },
        ),
        _ => None,
    }
}

/// The delimiters starting on line `l`, in order.
pub open spec fn delims_on(src: Seq<char>, toks: Seq<Tok>, l: int) -> Seq<DelimTok> {
    toks.filter_map(
        |t: Tok|
            if tok_line(src, t.start as int) == l {
                delim_tok(src, t)
            } else {
                None
            },
    )
}

/// The starts of the line comments on line `l`, in order.
pub open spec fn comments_on(src: Seq<char>, toks: Seq<Tok>, l: int) -> Seq<usize> {
    toks.filter_map(
        |t: Tok|
            if t.kind == LexKind::LineComment && tok_line(src, t.start as int) == l {
                Some(t.start)
            } else {
                None
            },
    )
}

/// Where line `l`'s first line comment starts.
pub open spec fn comment_start(src: Seq<char>, toks: Seq<Tok>, l: int) -> Option<usize> {
    let c = comments_on(src, toks, l);
    if c.len() > 0 {
        Some(c[0])
    } else {
        None
    }
}

/// Whether string or block comment `t` runs on into line `l`.
pub open spec fn spans_into(src: Seq<char>, t: Tok, l: int) -> bool {
    &&& (t.kind == LexKind::Str || t.kind == LexKind::BlockComment)
    &&& tok_line(src, t.start as int) < l
    &&& l <= tok_line(src, if t.end >= 1 { t.end - 1 } else { 0 })
}

/// Whether line `l` starts inside a multi-line string or comment.
pub open spec fn in_multiline(src: Seq<char>, toks: Seq<Tok>, l: int) -> bool {
    exists|k: int| 0 <= k < toks.len() && spans_into(src, #[trigger] toks[k], l)
}

/// The columns Nameless composition saves on an atom.
pub open spec fn save_of(src: Seq<char>, nl: Option<Seq<(Seq<char>, nat)>>, t: Tok) -> nat {
    match nl {
        Some(p) => if t.start <= t.end <= src.len() {
            saving_spec(p, src.subrange(t.start as int, t.end as int))
        } else {
            0
        },
        None => 0,
    }
}

/// The `(offset, columns saved)` of each Nameless-composed atom on line `l`.
pub open spec fn savings_on(
    src: Seq<char>,
    nl: Option<Seq<(Seq<char>, nat)>>,
    toks: Seq<Tok>,
    l: int,
) -> Seq<(usize, usize)> {
    toks.filter_map(
        |t: Tok|
            if t.kind == LexKind::Atom && tok_line(src, t.start as int) == l && save_of(src, nl, t) > 0 {
                Some((t.start, save_of(src, nl, t) as usize))
            } else {
                None
            },
    )
}

/// `x` saturated at `usize::MAX`.
pub open spec fn sat(x: int) -> int {
    if x > usize::MAX {
        usize::MAX as int
    } else {
        x
    }
}

/// A character's width in columns (a control character counts 0).
pub open spec fn width0(c: char) -> int {
    match crate::text::char_display_width(c) {
        Some(w) => w as int,
        None => 0,
    }
}

/// The display column after `s`: tabs advance to the next multiple of `tw`,
/// other characters by their width.
pub open spec fn col_fold(s: Seq<char>, tw: int) -> int
    decreases s.len(),
{
    if s.len() == 0 {
        0
    } else {
        let c0 = col_fold(s.drop_last(), tw);
        if s.last() == '\t' {
            sat((c0 / tw + 1) * tw)
        } else {
            sat(c0 + width0(s.last()))
        }
    }
}

/// The columns saved by the composed atoms that start before `off`.
pub open spec fn saved_sum(sv: Seq<(usize, usize)>, off: int) -> int
    decreases sv.len(),
{
    if sv.len() == 0 {
        0
    } else {
        sat(
            saved_sum(sv.drop_last(), off) + if (sv.last().0 as int) < off {
                sv.last().1 as int
            } else {
                0
            },
        )
    }
}

/// The displayed column of offset `off` on the line starting at `ls`, less
/// what the composed atoms `sv` before it save.
pub open spec fn col_at(src: Seq<char>, ls: int, off: int, tw: int, sv: Seq<(usize, usize)>) -> int {
    let raw = if ls <= off <= src.len() {
        col_fold(src.subrange(ls, off), tw)
    } else {
        0
    };
    let saved = saved_sum(sv, off);
    if raw >= saved {
        raw - saved
    } else {
        0
    }
}

/// The displayed column of offset `off` on line `l`.
pub open spec fn display_col(inp: IndentInput, l: int, off: int) -> int {
    col_at(inp.src, line_ranges(inp.src)[l].0, off, inp.tw, savings_on(inp.src, inp.nl, inp.toks, l))
}

/// Space or tab.
pub open spec fn sp_tab(c: char) -> bool {
    c == ' ' || c == '\t'
}

/// Whether `s[a..b)` is spaces and tabs only.
pub open spec fn all_sp_tab(s: Seq<char>, a: int, b: int) -> bool {
    forall|k: int| a <= k < b ==> sp_tab(#[trigger] s[k])
}

/// `e` moved back over the spaces and tabs before it, not below `lo`.
pub open spec fn trim_back(s: Seq<char>, lo: int, e: int) -> int
    decreases e - lo,
{
    if e <= lo {
        lo
    } else if e > s.len() {
        e
    } else if sp_tab(s[e - 1]) {
        trim_back(s, lo, e - 1)
    } else {
        e
    }
}

/// `i` moved forward over spaces and tabs, not past `hi`.
pub open spec fn skip_fwd(s: Seq<char>, i: int, hi: int) -> int
    decreases hi - i,
{
    if i >= hi || i < 0 || i >= s.len() {
        i
    } else if sp_tab(s[i]) {
        skip_fwd(s, i + 1, hi)
    } else {
        i
    }
}

/// Scanning the line's delimiters back from the `k`-th: the offset from which
/// the movable trailing closers (with the spaces between them) start.
pub open spec fn strip_scan(src: Seq<char>, ds: Seq<DelimTok>, k: int, sf: int) -> int
    decreases k,
{
    if k <= 0 || k > ds.len() {
        sf
    } else {
        let d = ds[k - 1];
        if d.start >= sf {
            strip_scan(src, ds, k - 1, sf)
        } else if !d.open && all_sp_tab(src, d.end as int, sf) {
            strip_scan(src, ds, k - 1, d.start as int)
        } else {
            sf
        }
    }
}

/// Where line `l`'s code region ends: at its first comment, or its end.
pub open spec fn region_end(inp: IndentInput, l: int) -> int {
    match comment_start(inp.src, inp.toks, l) {
        Some(c) => c as int,
        None => line_ranges(inp.src)[l].1,
    }
}

/// Where line `l`'s movable trailing closers start (none on the protected
/// line).
pub open spec fn strip_from(inp: IndentInput, l: int) -> int {
    let ds = delims_on(inp.src, inp.toks, l);
    if inp.protect == Some(l) {
        region_end(inp, l)
    } else {
        strip_scan(inp.src, ds, ds.len() as int, region_end(inp, l))
    }
}

/// The end of line `l`'s kept code (trailing spaces and tabs dropped).
pub open spec fn code_end(inp: IndentInput, l: int) -> int {
    trim_back(inp.src, line_ranges(inp.src)[l].0, strip_from(inp, l))
}

/// Line `l`'s kept code.
pub open spec fn code_of(inp: IndentInput, l: int) -> Seq<char> {
    inp.src.subrange(line_ranges(inp.src)[l].0, code_end(inp, l))
}

/// Whether the kept code is only spaces, tabs and page breaks.
pub open spec fn blank_code(inp: IndentInput, l: int) -> bool {
    forall|k: int|
        line_ranges(inp.src)[l].0 <= k < code_end(inp, l) ==> (sp_tab(#[trigger] inp.src[k])
            || inp.src[k] == '\u{0c}')
}

/// Line `l`'s trailing comment with the spaces before it.
pub open spec fn comment_of(inp: IndentInput, l: int) -> Seq<char> {
    match comment_start(inp.src, inp.toks, l) {
        Some(c) => {
            let a = trim_back(inp.src, 0, c as int);
            let le = line_ranges(inp.src)[l].1;
            if a <= le {
                inp.src.subrange(a, le)
            } else {
                Seq::empty()
            }
        },
        None => Seq::empty(),
    }
}

/// The displayed column of line `l`'s first code character.
pub open spec fn indent_col(inp: IndentInput, l: int) -> int {
    display_col(inp, l, skip_fwd(inp.src, line_ranges(inp.src)[l].0, code_end(inp, l)))
}

/// The transform's state after some lines: the output lines (code,
/// comment), the open delimiters with their columns, and the last line with
/// code (where inferred closers go).
pub struct IndState {
    pub out: Seq<(Seq<char>, Seq<char>)>,
    pub stack: Seq<(Delim, int)>,
    pub last: Option<int>,
}

/// `out` with the closer for `d` appended to the code of line `last`.
pub open spec fn append_closer(out: Seq<(Seq<char>, Seq<char>)>, last: Option<int>, d: Delim) -> Seq<
    (Seq<char>, Seq<char>),
> {
    match last {
        Some(i) => if 0 <= i < out.len() {
            out.update(i, (out[i].0.push(close_glyph(d)), out[i].1))
        } else {
            out
        },
        None => out,
    }
}

/// Close every open delimiter at or right of column `x`.
pub open spec fn close_upto(
    out: Seq<(Seq<char>, Seq<char>)>,
    stack: Seq<(Delim, int)>,
    last: Option<int>,
    x: int,
) -> (Seq<(Seq<char>, Seq<char>)>, Seq<(Delim, int)>)
    decreases stack.len(),
{
    if stack.len() > 0 && stack.last().1 >= x {
        close_upto(append_closer(out, last, stack.last().0), stack.drop_last(), last, x)
    } else {
        (out, stack)
    }
}

/// The kept delimiters of line `l` from the `k`-th on against the stack: an
/// opener pushes its column, a closer pops a matching opener; a closer with
/// none to match fails at its offset.
pub open spec fn track(inp: IndentInput, l: int, k: int, sf: int, stack: Seq<(Delim, int)>) -> Result<
    Seq<(Delim, int)>,
    int,
>
    decreases delims_on(inp.src, inp.toks, l).len() - k,
{
    let ds = delims_on(inp.src, inp.toks, l);
    if k < 0 || k >= ds.len() {
        Ok(stack)
    } else {
        let d = ds[k];
        if d.start >= sf {
            track(inp, l, k + 1, sf, stack)
        } else if d.open {
            track(inp, l, k + 1, sf, stack.push((d.delim, display_col(inp, l, d.start as int))))
        } else if stack.len() > 0 && stack.last().0 == d.delim {
            track(inp, l, k + 1, sf, stack.drop_last())
        } else {
            Err(d.start as int)
        }
    }
}

/// Line `l` processed against the state.
pub open spec fn step(inp: IndentInput, st: IndState, l: int) -> Result<IndState, int> {
    let r = line_ranges(inp.src)[l];
    if in_multiline(inp.src, inp.toks, l) {
        Ok(IndState { out: st.out.push((inp.src.subrange(r.0, r.1), Seq::empty())), ..st })
    } else if blank_code(inp, l) {
        Ok(IndState { out: st.out.push((code_of(inp, l), comment_of(inp, l))), ..st })
    } else {
        let closed = close_upto(st.out, st.stack, st.last, indent_col(inp, l));
        let out = closed.0.push((code_of(inp, l), comment_of(inp, l)));
        match track(inp, l, 0, strip_from(inp, l), closed.1) {
            Ok(stack) => Ok(IndState { out, stack, last: Some(out.len() - 1) }),
            Err(o) => Err(o),
        }
    }
}

/// The state after lines `0..k`, or the offset of an unmatched closer.
pub open spec fn run_lines(inp: IndentInput, k: int) -> Result<IndState, int>
    decreases k,
{
    if k <= 0 {
        Ok(IndState { out: Seq::empty(), stack: Seq::empty(), last: None })
    } else {
        match run_lines(inp, k - 1) {
            Ok(st) => step(inp, st, k - 1),
            Err(o) => Err(o),
        }
    }
}

/// The output text: every still-open delimiter closed on the last code line,
/// lines joined with `\n`, and the input's trailing `\n` kept.
pub open spec fn indent_text(inp: IndentInput, st: IndState) -> Seq<char> {
    let closed = close_upto(st.out, st.stack, st.last, 0);
    join_lines(closed.0.map_values(|p: (Seq<char>, Seq<char>)| p.0 + p.1)) + if inp.src.len() > 0
        && inp.src.last() == '\n' {
        seq!['\n']
    } else {
        Seq::empty()
    }
}

// --- Indent mode: the per-line facts ---------------------------------------------

/// `map[b]`, clamped to the map's last entry.
pub open spec fn map_at(m: Seq<usize>, b: int) -> usize {
    if 0 <= b < m.len() {
        m[b]
    } else {
        m.last()
    }
}

/// A lexeme with its byte offsets turned into character offsets.
pub open spec fn char_tok(cs: Seq<char>, t: LexTok) -> Tok {
    Tok {
        kind: t.kind,
        start: map_at(byte_char_map(cs), t.start as int),
        end: map_at(byte_char_map(cs), t.end as int),
    }
}

/// Every lexeme of `toks` lies within the text.
pub open spec fn toks_wf(src: Seq<char>, toks: Seq<Tok>) -> bool {
    forall|k: int| 0 <= k < toks.len() ==> (#[trigger] toks[k]).start <= src.len() && toks[k].end <= src.len()
}

/// The lexemes with character offsets.
pub(crate) fn char_tokens(cs: &[char], lex: &Vec<LexTok>) -> (r: Vec<Tok>)
    ensures
        r@ == lex@.map_values(|t: LexTok| char_tok(cs@, t)),
        toks_wf(cs@, r@),
{
    let map = byte_to_char_map(cs);
    let mut r: Vec<Tok> = Vec::new();
    let mut i: usize = 0;
    while i < lex.len()
        invariant
            map@ == byte_char_map(cs@),
            map@.len() >= 1,
            forall|k: int| 0 <= k < map@.len() ==> map@[k] <= cs@.len(),
            i <= lex@.len(),
            r@ == lex@.take(i as int).map_values(|t: LexTok| char_tok(cs@, t)),
            toks_wf(cs@, r@),
        decreases lex.len() - i,
    {
        let t = lex[i];
        let c = Tok { kind: t.kind, start: map_offset(&map, t.start), end: map_offset(&map, t.end) };
        r.push(c);
        assert(lex@.take(i + 1).map_values(|t: LexTok| char_tok(cs@, t)) == lex@.take(i as int).map_values(
            |t: LexTok| char_tok(cs@, t),
        ).push(char_tok(cs@, lex@[i as int])));
        i = i + 1;
    }
    assert(lex@.take(i as int) == lex@);
    r
}

pub proof fn lemma_line_ranges_from(s: Seq<char>, i: int)
    requires
        0 <= i <= s.len(),
    ensures
        forall|k: int|
            0 <= k < line_ranges_from(s, i).len() ==> i <= (#[trigger] line_ranges_from(s, i)[k]).0
                <= line_ranges_from(s, i)[k].1 <= s.len(),
        i < s.len() || s.len() == 0 ==> line_ranges_from(s, i).len() >= 1,
    decreases s.len() - i,
{
    crate::text::lemma_next_of(s, '\n', i);
    let j = crate::text::next_of(s, '\n', i);
    if j < s.len() {
        lemma_line_ranges_from(s, j + 1);
        let rest = line_ranges_from(s, j + 1);
        assert forall|k: int| 0 <= k < line_ranges_from(s, i).len() implies i <= (
        #[trigger] line_ranges_from(s, i)[k]).0 <= line_ranges_from(s, i)[k].1 <= s.len() by {
            if k > 0 {
                assert(line_ranges_from(s, i)[k] == rest[k - 1]);
            }
        }
    }
}

/// The line ranges of `s`.
fn line_ranges_exec(s: &[char]) -> (r: Vec<(usize, usize)>)
    ensures
        r@.len() == line_ranges(s@).len() >= 1,
        forall|k: int|
            0 <= k < r@.len() ==> (#[trigger] r@[k]).0 == line_ranges(s@)[k].0 && r@[k].1
                == line_ranges(s@)[k].1,
        forall|k: int| 0 <= k < r@.len() ==> (#[trigger] r@[k]).0 <= r@[k].1 <= s@.len(),
{
    proof {
        lemma_line_ranges_from(s@, 0);
    }
    let mut r: Vec<(usize, usize)> = Vec::new();
    let mut i: usize = 0;
    let ghost mut acc: Seq<(int, int)> = Seq::empty();
    loop
        invariant
            i <= s@.len(),
            acc + line_ranges_from(s@, i as int) == line_ranges(s@),
            r@.len() == acc.len(),
            i > 0 ==> acc.len() >= 1,
            line_ranges(s@).len() >= 1,
            forall|k: int|
                0 <= k < r@.len() ==> (#[trigger] r@[k]).0 == acc[k].0 && r@[k].1 == acc[k].1,
            forall|k: int| 0 <= k < r@.len() ==> (#[trigger] r@[k]).0 <= r@[k].1 <= s@.len(),
        decreases s@.len() - i,
    {
        let j = crate::text::next_of_exec(s, '\n', i);
        proof {
            crate::text::lemma_next_of(s@, '\n', i as int);
        }
        if j < s.len() {
            r.push((i, j));
            proof {
                acc = acc.push((i as int, j as int));
                assert(line_ranges_from(s@, i as int) == seq![(i as int, j as int)] + line_ranges_from(
                    s@,
                    j + 1,
                ));
            }
            i = j + 1;
        } else {
            if i < s.len() || s.len() == 0 {
                r.push((i, s.len()));
                proof {
                    acc = acc.push((i as int, s@.len() as int));
                }
            }
            assert(acc == line_ranges(s@));
            return r;
        }
    }
}

/// The line of offset `off`.
fn tok_line_exec(nl: &Vec<usize>, n: usize, off: usize) -> (l: usize)
    requires
        1 <= n,
        off < nl@.len(),
    ensures
        l < n,
        l == (if nl@[off as int] < n - 1 { nl@[off as int] as int } else { n - 1 }),
{
    let c = nl[off];
    if c < n - 1 {
        c
    } else {
        n - 1
    }
}

/// The delimiter class of the glyph at `k`.
fn delim_at(cs: &[char], t: &Tok) -> (d: Delim)
    ensures
        d == glyph_delim(delim_glyph(cs@, *t)),
{
    let k: usize = match t.kind {
        LexKind::Close => t.start,
        _ => {
            if t.end == 0 {
                cs.len()
            } else {
                t.end - 1
            }
        },
    };
    if k < cs.len() {
        let c = cs[k];
        if c == '[' || c == ']' {
            Delim::Square
        } else if c == '{' || c == '}' {
            Delim::Curly
        } else {
            Delim::Round
        }
    } else {
        Delim::Round
    }
}

/// What the tables below need of the line-number table `nl`.
pub open spec fn nl_table(cs: Seq<char>, nl: Seq<usize>, n: int) -> bool {
    &&& n == line_ranges(cs).len()
    &&& n >= 1
    &&& nl.len() == cs.len() + 1
    &&& forall|k: int| 0 <= k <= cs.len() ==> nl[k] == nl_count(cs, k)
}

/// The delimiters of every line.
fn delim_table(cs: &[char], toks: &Vec<Tok>, nl: &Vec<usize>, n: usize) -> (t: Vec<Vec<DelimTok>>)
    requires
        nl_table(cs@, nl@, n as int),
        toks_wf(cs@, toks@),
    ensures
        t@.len() == n,
        forall|l: int| 0 <= l < n ==> (#[trigger] t@[l])@ == delims_on(cs@, toks@, l),
        forall|l: int, k: int|
            0 <= l < n && 0 <= k < t@[l]@.len() ==> (#[trigger] t@[l]@[k]).start <= cs@.len()
                && t@[l]@[k].end <= cs@.len(),
{
    let mut t: Vec<Vec<DelimTok>> = Vec::new();
    let mut q: usize = 0;
    while q < n
        invariant
            q <= n,
            t@.len() == q,
            forall|l: int| 0 <= l < q ==> (#[trigger] t@[l])@ == Seq::<DelimTok>::empty(),
        decreases n - q,
    {
        t.push(Vec::new());
        q = q + 1;
    }
    let mut i: usize = 0;
    while i < toks.len()
        invariant
            nl_table(cs@, nl@, n as int),
            toks_wf(cs@, toks@),
            i <= toks@.len(),
            t@.len() == n,
            forall|l: int| 0 <= l < n ==> (#[trigger] t@[l])@ == delims_on(cs@, toks@.take(i as int), l),
            forall|l: int, k: int|
                0 <= l < n && 0 <= k < t@[l]@.len() ==> (#[trigger] t@[l]@[k]).start <= cs@.len()
                    && t@[l]@[k].end <= cs@.len(),
        decreases toks.len() - i,
    {
        let tk = toks[i];
        let l = tok_line_exec(nl, n, tk.start);
        let ghost before = t@;
        let open = match tk.kind {
            LexKind::Open | LexKind::HashOpen => Some(true),
            LexKind::Close => Some(false),
            _ => None,
        };
        if let Some(o) = open {
            let d = DelimTok { start: tk.start, end: tk.end, delim: delim_at(cs, &tk), open: o };
            t[l].push(d);
        }
        proof {
            let p = toks@.take(i + 1);
            assert(p.drop_last() == toks@.take(i as int));
            assert(p.last() == tk);
            assert(tok_line(cs@, tk.start as int) == l);
            assert forall|q: int| 0 <= q < n implies (#[trigger] t@[q])@ == delims_on(cs@, p, q) by {
                if q != l {
                    assert(t@[q] == before[q]);
                }
            }
        }
        i = i + 1;
    }
    assert(toks@.take(i as int) == toks@);
    t
}

/// Where each line's first line comment starts.
fn comment_table(cs: &[char], toks: &Vec<Tok>, nl: &Vec<usize>, n: usize) -> (t: Vec<Option<usize>>)
    requires
        nl_table(cs@, nl@, n as int),
        toks_wf(cs@, toks@),
    ensures
        t@.len() == n,
        forall|l: int| 0 <= l < n ==> (#[trigger] t@[l]) == comment_start(cs@, toks@, l),
        forall|l: int| 0 <= l < n ==> (#[trigger] t@[l] matches Some(c) ==> c <= cs@.len()),
{
    let mut t: Vec<Option<usize>> = Vec::new();
    let mut q: usize = 0;
    while q < n
        invariant
            q <= n,
            t@.len() == q,
            forall|l: int| 0 <= l < q ==> (#[trigger] t@[l]) is None,
        decreases n - q,
    {
        t.push(None);
        q = q + 1;
    }
    let mut i: usize = 0;
    while i < toks.len()
        invariant
            nl_table(cs@, nl@, n as int),
            toks_wf(cs@, toks@),
            i <= toks@.len(),
            t@.len() == n,
            forall|l: int| 0 <= l < n ==> (#[trigger] t@[l]) == comment_start(cs@, toks@.take(i as int), l),
            forall|l: int| 0 <= l < n ==> (#[trigger] t@[l] matches Some(c) ==> c <= cs@.len()),
        decreases toks.len() - i,
    {
        let tk = toks[i];
        let l = tok_line_exec(nl, n, tk.start);
        let ghost before = t@;
        let is_comment = match tk.kind {
            LexKind::LineComment => true,
            _ => false,
        };
        if is_comment && t[l].is_none() {
            t.set(l, Some(tk.start));
        }
        proof {
            let p = toks@.take(i + 1);
            assert(p.drop_last() == toks@.take(i as int));
            assert(p.last() == tk);
            assert(tok_line(cs@, tk.start as int) == l);
            assert forall|q: int| 0 <= q < n implies (#[trigger] t@[q]) == comment_start(cs@, p, q) by {
                let old_c = comments_on(cs@, toks@.take(i as int), q);
                let new_c = comments_on(cs@, p, q);
                if q == l && is_comment {
                    assert(new_c == old_c + seq![tk.start]);
                    if old_c.len() > 0 {
                        assert(new_c[0] == old_c[0]);
                    }
                } else {
                    assert(new_c == old_c);
                }
            }
        }
        i = i + 1;
    }
    assert(toks@.take(i as int) == toks@);
    t
}

/// Which lines start inside a multi-line string or comment.
fn multiline_table(cs: &[char], toks: &Vec<Tok>, nl: &Vec<usize>, n: usize) -> (t: Vec<bool>)
    requires
        nl_table(cs@, nl@, n as int),
        toks_wf(cs@, toks@),
    ensures
        t@.len() == n,
        forall|l: int| 0 <= l < n ==> (#[trigger] t@[l]) == in_multiline(cs@, toks@, l),
{
    let mut t: Vec<bool> = Vec::new();
    let mut q: usize = 0;
    while q < n
        invariant
            q <= n,
            t@.len() == q,
            forall|l: int| 0 <= l < q ==> !(#[trigger] t@[l]),
        decreases n - q,
    {
        t.push(false);
        q = q + 1;
    }
    let mut i: usize = 0;
    while i < toks.len()
        invariant
            nl_table(cs@, nl@, n as int),
            toks_wf(cs@, toks@),
            i <= toks@.len(),
            t@.len() == n,
            forall|l: int|
                0 <= l < n ==> ((#[trigger] t@[l]) <==> exists|k: int|
                    0 <= k < i && spans_into(cs@, #[trigger] toks@[k], l)),
        decreases toks.len() - i,
    {
        let tk = toks[i];
        let multi = match tk.kind {
            LexKind::Str | LexKind::BlockComment => true,
            _ => false,
        };
        if multi {
            let l0 = tok_line_exec(nl, n, tk.start);
            let e = if tk.end >= 1 {
                tk.end - 1
            } else {
                0
            };
            let l1 = tok_line_exec(nl, n, e);
            let ghost before = t@;
            let mut q = l0 + 1;
            while q <= l1
                invariant
                    l0 < n,
                    l1 < n,
                    l0 + 1 <= q,
                    q <= l1 + 1 || q == l0 + 1,
                    t@.len() == n,
                    forall|r: int| 0 <= r < n && !(l0 < r < q) ==> t@[r] == before[r],
                    forall|r: int| l0 < r < q ==> t@[r],
                decreases l1 + 1 - q,
            {
                t.set(q, true);
                q = q + 1;
            }
            proof {
                assert forall|r: int|
                    0 <= r < n implies ((#[trigger] t@[r]) <==> exists|k: int|
                        0 <= k < i + 1 && spans_into(cs@, #[trigger] toks@[k], r)) by {
                    if spans_into(cs@, toks@[i as int], r) {
                        assert(t@[r]);
                    } else {
                        if l0 < r <= l1 {
                            assert(spans_into(cs@, toks@[i as int], r));
                        }
                        assert(t@[r] == before[r]);
                        if exists|k: int| 0 <= k < i + 1 && spans_into(cs@, #[trigger] toks@[k], r) {
                            let k = choose|k: int| 0 <= k < i + 1 && spans_into(cs@, #[trigger] toks@[k], r);
                            assert(k != i);
                        }
                    }
                }
            }
        } else {
            proof {
                assert forall|r: int|
                    0 <= r < n implies ((#[trigger] t@[r]) <==> exists|k: int|
                        0 <= k < i + 1 && spans_into(cs@, #[trigger] toks@[k], r)) by {
                    if exists|k: int| 0 <= k < i + 1 && spans_into(cs@, #[trigger] toks@[k], r) {
                        let k = choose|k: int| 0 <= k < i + 1 && spans_into(cs@, #[trigger] toks@[k], r);
                        assert(k != i);
                    }
                }
            }
        }
        i = i + 1;
    }
    t
}

/// What Nameless composition saves on each line's atoms.
fn savings_table(cs: &[char], toks: &Vec<Tok>, nl: &Vec<usize>, n: usize, nameless: &Option<Nameless>) -> (t: Vec<Vec<(usize, usize)>>)
    requires
        nl_table(cs@, nl@, n as int),
        toks_wf(cs@, toks@),
    ensures
        t@.len() == n,
        forall|l: int|
            0 <= l < n ==> (#[trigger] t@[l])@ == savings_on(cs@, nameless_view(nameless), toks@, l),
{
    let mut t: Vec<Vec<(usize, usize)>> = Vec::new();
    let mut q: usize = 0;
    while q < n
        invariant
            q <= n,
            t@.len() == q,
            forall|l: int| 0 <= l < q ==> (#[trigger] t@[l])@ == Seq::<(usize, usize)>::empty(),
        decreases n - q,
    {
        t.push(Vec::new());
        q = q + 1;
    }
    let ghost nv = nameless_view(nameless);
    let mut i: usize = 0;
    while i < toks.len()
        invariant
            nl_table(cs@, nl@, n as int),
            toks_wf(cs@, toks@),
            nv == nameless_view(nameless),
            i <= toks@.len(),
            t@.len() == n,
            forall|l: int| 0 <= l < n ==> (#[trigger] t@[l])@ == savings_on(cs@, nv, toks@.take(i as int), l),
        decreases toks.len() - i,
    {
        let tk = toks[i];
        let l = tok_line_exec(nl, n, tk.start);
        let ghost before = t@;
        let atom = match tk.kind {
            LexKind::Atom => true,
            _ => false,
        };
        let save: usize = match nameless {
            Some(p) => {
                if atom && tk.start <= tk.end {
                    let text = string_of_range(cs, tk.start, tk.end);
                    p.saving(text.as_str())
                } else {
                    0
                }
            },
            None => 0,
        };
        assert(atom ==> save == save_of(cs@, nv, tk));
        if atom && save > 0 {
            t[l].push((tk.start, save));
        }
        proof {
            let p = toks@.take(i + 1);
            assert(p.drop_last() == toks@.take(i as int));
            assert(p.last() == tk);
            assert(tok_line(cs@, tk.start as int) == l);
            assert forall|q: int| 0 <= q < n implies (#[trigger] t@[q])@ == savings_on(cs@, nv, p, q) by {
                if q != l {
                    assert(t@[q] == before[q]);
                }
            }
        }
        i = i + 1;
    }
    assert(toks@.take(i as int) == toks@);
    t
}

/// The Nameless prefixes, if the overlay is on.
pub open spec fn nameless_view(nameless: &Option<Nameless>) -> Option<Seq<(Seq<char>, nat)>> {
    match nameless {
        Some(n) => Some(n@),
        None => None,
    }
}

// --- Indent mode: one line ------------------------------------------------------

/// The display column after `cs[a..b]`.
fn col_fold_exec(cs: &[char], a: usize, b: usize, tw: usize) -> (c: usize)
    requires
        a <= b <= cs@.len(),
        tw >= 1,
    ensures
        c == col_fold(cs@.subrange(a as int, b as int), tw as int),
{
    let mut c: usize = 0;
    let mut k = a;
    while k < b
        invariant
            a <= k <= b <= cs@.len(),
            tw >= 1,
            c == col_fold(cs@.subrange(a as int, k as int), tw as int),
        decreases b - k,
    {
        let ch = cs[k];
        let ghost c0 = c;
        assert(cs@.subrange(a as int, k + 1).last() == ch);
        if ch == '\t' {
            let q = c / tw;
            assert((q + 1) * tw >= q + 1) by (nonlinear_arith)
                requires
                    tw >= 1,
                    q >= 0,
            ;
            c = match q.checked_add(1) {
                Some(q1) => match q1.checked_mul(tw) {
                    Some(v) => v,
                    None => usize::MAX,
                },
                None => usize::MAX,
            };
        } else {
            let w = match crate::text::char_width(ch) {
                Some(w) => w,
                None => 0,
            };
            c = c.saturating_add(w);
        }
        assert(cs@.subrange(a as int, k + 1).drop_last() == cs@.subrange(a as int, k as int));
        k = k + 1;
    }
    c
}

/// The displayed column of `off` on the line starting at `ls`.
fn col_at_exec(cs: &[char], ls: usize, off: usize, tw: usize, sv: &Vec<(usize, usize)>) -> (c: usize)
    requires
        tw >= 1,
    ensures
        c == col_at(cs@, ls as int, off as int, tw as int, sv@),
{
    let raw = if ls <= off && off <= cs.len() {
        col_fold_exec(cs, ls, off, tw)
    } else {
        0
    };
    let mut saved: usize = 0;
    let mut k: usize = 0;
    while k < sv.len()
        invariant
            k <= sv@.len(),
            saved == saved_sum(sv@.take(k as int), off as int),
        decreases sv.len() - k,
    {
        if sv[k].0 < off {
            saved = saved.saturating_add(sv[k].1);
        }
        assert(sv@.take(k + 1).drop_last() == sv@.take(k as int));
        k = k + 1;
    }
    assert(sv@.take(k as int) == sv@);
    if raw >= saved {
        raw - saved
    } else {
        0
    }
}

/// Whether `cs[a..b)` is spaces and tabs only.
fn all_sp_tab_exec(cs: &[char], a: usize, b: usize) -> (r: bool)
    requires
        b <= cs@.len(),
    ensures
        r == all_sp_tab(cs@, a as int, b as int),
{
    let mut k = a;
    while k < b
        invariant
            b <= cs@.len(),
            a <= k,
            forall|q: int| a <= q < k ==> sp_tab(#[trigger] cs@[q]),
        decreases b - k,
    {
        if cs[k] != ' ' && cs[k] != '\t' {
            return false;
        }
        k = k + 1;
    }
    true
}

/// `e` moved back over spaces and tabs, not below `lo`.
fn trim_back_exec(cs: &[char], lo: usize, e: usize) -> (r: usize)
    ensures
        r == trim_back(cs@, lo as int, e as int),
        lo <= e <= cs@.len() ==> lo <= r <= e,
        e <= lo ==> r == lo,
{
    if e <= lo {
        return lo;
    }
    if e > cs.len() {
        return e;
    }
    let mut k = e;
    while k > lo && (cs[k - 1] == ' ' || cs[k - 1] == '\t')
        invariant
            lo <= k <= e <= cs@.len(),
            trim_back(cs@, lo as int, k as int) == trim_back(cs@, lo as int, e as int),
        decreases k,
    {
        k = k - 1;
    }
    k
}

/// `i` moved forward over spaces and tabs, not past `hi`.
fn skip_fwd_exec(cs: &[char], i: usize, hi: usize) -> (r: usize)
    ensures
        r == skip_fwd(cs@, i as int, hi as int),
        i <= hi ==> i <= r <= hi,
{
    let mut k = i;
    while k < hi && k < cs.len() && (cs[k] == ' ' || cs[k] == '\t')
        invariant
            i <= k,
            i <= hi ==> k <= hi,
            skip_fwd(cs@, k as int, hi as int) == skip_fwd(cs@, i as int, hi as int),
        decreases hi - k,
    {
        k = k + 1;
    }
    k
}

/// Where the movable trailing closers among `ds` start, scanning back from
/// the region end `sf0`.
fn strip_scan_exec(cs: &[char], ds: &Vec<DelimTok>, sf0: usize) -> (sf: usize)
    requires
        sf0 <= cs@.len(),
        forall|k: int| 0 <= k < ds@.len() ==> (#[trigger] ds@[k]).start <= cs@.len() && ds@[k].end <= cs@.len(),
    ensures
        sf == strip_scan(cs@, ds@, ds@.len() as int, sf0 as int),
        sf <= cs@.len(),
{
    let mut k = ds.len();
    let mut sf = sf0;
    while k > 0
        invariant
            k <= ds@.len(),
            sf <= cs@.len(),
            forall|q: int| 0 <= q < ds@.len() ==> (#[trigger] ds@[q]).start <= cs@.len() && ds@[q].end <= cs@.len(),
            strip_scan(cs@, ds@, k as int, sf as int) == strip_scan(cs@, ds@, ds@.len() as int, sf0 as int),
        decreases k,
    {
        let d = ds[k - 1];
        if d.start >= sf {
            k = k - 1;
        } else if !d.open && all_sp_tab_exec(cs, d.end, sf) {
            sf = d.start;
            k = k - 1;
        } else {
            return sf;
        }
    }
    sf
}

// --- Indent mode: all lines -------------------------------------------------------

/// The per-line facts the transform reads.
struct Facts {
    ranges: Vec<(usize, usize)>,
    delims: Vec<Vec<DelimTok>>,
    comments: Vec<Option<usize>>,
    multiline: Vec<bool>,
    savings: Vec<Vec<(usize, usize)>>,
}

/// `f` holds the facts of `inp`.
spec fn facts_wf(f: &Facts, inp: IndentInput) -> bool {
    let n = line_ranges(inp.src).len();
    &&& n >= 1
    &&& inp.tw >= 1
    &&& toks_wf(inp.src, inp.toks)
    &&& f.ranges@.len() == n
    &&& forall|l: int|
        0 <= l < n ==> (#[trigger] f.ranges@[l]).0 == line_ranges(inp.src)[l].0 && f.ranges@[l].1
            == line_ranges(inp.src)[l].1 && f.ranges@[l].0 <= f.ranges@[l].1 <= inp.src.len()
    &&& f.delims@.len() == n
    &&& forall|l: int| 0 <= l < n ==> (#[trigger] f.delims@[l])@ == delims_on(inp.src, inp.toks, l)
    &&& forall|l: int, k: int|
        0 <= l < n && 0 <= k < f.delims@[l]@.len() ==> (#[trigger] f.delims@[l]@[k]).start
            <= inp.src.len() && f.delims@[l]@[k].end <= inp.src.len()
    &&& f.comments@.len() == n
    &&& forall|l: int| 0 <= l < n ==> (#[trigger] f.comments@[l]) == comment_start(inp.src, inp.toks, l)
    &&& forall|l: int| 0 <= l < n ==> (#[trigger] f.comments@[l] matches Some(c) ==> c <= inp.src.len())
    &&& f.multiline@.len() == n
    &&& forall|l: int| 0 <= l < n ==> (#[trigger] f.multiline@[l]) == in_multiline(inp.src, inp.toks, l)
    &&& f.savings@.len() == n
    &&& forall|l: int|
        0 <= l < n ==> (#[trigger] f.savings@[l])@ == savings_on(inp.src, inp.nl, inp.toks, l)
}

/// The output lines as (code, comment) pairs.
pub open spec fn out_of(codes: Seq<Vec<char>>, coms: Seq<Vec<char>>) -> Seq<(Seq<char>, Seq<char>)> {
    Seq::new(codes.len(), |i: int| (codes[i]@, coms[i]@))
}

/// The open delimiters with their columns.
pub open spec fn stack_of(st: Seq<(Delim, usize)>) -> Seq<(Delim, int)> {
    Seq::new(st.len(), |i: int| (st[i].0, st[i].1 as int))
}

pub open spec fn opt_int(o: Option<usize>) -> Option<int> {
    match o {
        Some(v) => Some(v as int),
        None => None,
    }
}

/// The closing glyph of `d`.
fn close_glyph_exec(d: Delim) -> (c: char)
    ensures
        c == close_glyph(d),
{
    match d {
        Delim::Round => ')',
        Delim::Square => ']',
        Delim::Curly => '}',
    }
}

/// Close every open delimiter at or right of column `x`, appending the
/// closers to line `last`.
fn close_upto_exec(
    codes: &mut Vec<Vec<char>>,
    coms: &Vec<Vec<char>>,
    stack: &mut Vec<(Delim, usize)>,
    last: Option<usize>,
    x: usize,
)
    requires
        old(codes)@.len() == coms@.len(),
    ensures
        final(codes)@.len() == coms@.len(),
        (out_of(final(codes)@, coms@), stack_of(final(stack)@)) == close_upto(
            out_of(old(codes)@, coms@),
            stack_of(old(stack)@),
            opt_int(last),
            x as int,
        ),
{
    let ghost want = close_upto(out_of(codes@, coms@), stack_of(stack@), opt_int(last), x as int);
    while stack.len() > 0 && stack[stack.len() - 1].1 >= x
        invariant
            codes@.len() == coms@.len(),
            close_upto(out_of(codes@, coms@), stack_of(stack@), opt_int(last), x as int) == want,
        decreases stack@.len(),
    {
        let ghost out0 = out_of(codes@, coms@);
        let ghost st0 = stack_of(stack@);
        let top = stack.pop().unwrap();
        let g = close_glyph_exec(top.0);
        proof {
            assert(stack_of(stack@) == st0.drop_last());
            assert(st0.last() == (top.0, top.1 as int));
        }
        match last {
            Some(i) => {
                if i < codes.len() {
                    let ghost c0 = codes@[i as int]@;
                    codes[i].push(g);
                    assert(out_of(codes@, coms@) == out0.update(i as int, (c0.push(g), coms@[i as int]@)));
                } else {
                    assert(out_of(codes@, coms@) == out0);
                }
            },
            None => {
                assert(out_of(codes@, coms@) == out0);
            },
        }
    }
    assert(close_upto(out_of(codes@, coms@), stack_of(stack@), opt_int(last), x as int) == (
    out_of(codes@, coms@), stack_of(stack@)));
}

/// Whether `cs[a..b)` holds only spaces, tabs and page breaks.
fn blank_exec(cs: &[char], a: usize, b: usize) -> (r: bool)
    requires
        b <= cs@.len(),
    ensures
        r == (forall|k: int| a <= k < b ==> (sp_tab(#[trigger] cs@[k]) || cs@[k] == '\u{0c}')),
{
    let mut k = a;
    while k < b
        invariant
            b <= cs@.len(),
            a <= k,
            forall|q: int| a <= q < k ==> (sp_tab(#[trigger] cs@[q]) || cs@[q] == '\u{0c}'),
        decreases b - k,
    {
        let c = cs[k];
        if c != ' ' && c != '\t' && c != '\u{0c}' {
            return false;
        }
        k = k + 1;
    }
    true
}

/// Once a line fails, every longer run fails the same way.
proof fn lemma_run_lines_err(inp: IndentInput, k: int, m: int)
    requires
        0 <= k <= m,
        run_lines(inp, k) is Err,
    ensures
        run_lines(inp, m) == run_lines(inp, k),
    decreases m - k,
{
    if k < m {
        assert(run_lines(inp, k + 1) == run_lines(inp, k));
        lemma_run_lines_err(inp, k + 1, m);
    }
}

/// The indent-mode lines: every line processed, or the offset of the first
/// closer with no opener to match.
fn indent_lines(cs: &[char], f: &Facts, protect: Option<usize>, tw: usize, Ghost(inp): Ghost<IndentInput>) -> (r: Result<
    (Vec<Vec<char>>, Vec<Vec<char>>, Vec<(Delim, usize)>, Option<usize>),
    usize,
>)
    requires
        facts_wf(f, inp),
        inp.src == cs@,
        inp.tw == tw,
        inp.protect == opt_int(protect),
    ensures
        match r {
            Ok((codes, coms, stack, last)) => codes@.len() == coms@.len() && run_lines(
                inp,
                line_ranges(cs@).len() as int,
            ) == Ok::<IndState, int>(
                IndState { out: out_of(codes@, coms@), stack: stack_of(stack@), last: opt_int(last) },
            ),
            Err(o) => run_lines(inp, line_ranges(cs@).len() as int) == Err::<IndState, int>(o as int),
        },
{
    let n = f.ranges.len();
    let mut codes: Vec<Vec<char>> = Vec::new();
    let mut coms: Vec<Vec<char>> = Vec::new();
    let mut stack: Vec<(Delim, usize)> = Vec::new();
    let mut last: Option<usize> = None;
    let mut l: usize = 0;
    assert(out_of(codes@, coms@) == Seq::<(Seq<char>, Seq<char>)>::empty());
    assert(stack_of(stack@) == Seq::<(Delim, int)>::empty());
    while l < n
        invariant
            facts_wf(f, inp),
            inp.src == cs@,
            inp.tw == tw,
            inp.protect == opt_int(protect),
            n == f.ranges@.len(),
            l <= n,
            codes@.len() == coms@.len(),
            run_lines(inp, l as int) == Ok::<IndState, int>(
                IndState { out: out_of(codes@, coms@), stack: stack_of(stack@), last: opt_int(last) },
            ),
        decreases n - l,
    {
        let ghost st = IndState { out: out_of(codes@, coms@), stack: stack_of(stack@), last: opt_int(last) };
        let (ls, le) = f.ranges[l];
        if f.multiline[l] {
            codes.push(crate::text::slice_range(cs, ls, le));
            coms.push(Vec::new());
            assert(out_of(codes@, coms@) == st.out.push((cs@.subrange(ls as int, le as int), Seq::empty())));
        } else {
            let re = match f.comments[l] {
                Some(c) => c,
                None => le,
            };
            assert(re == region_end(inp, l as int));
            let sf = if protect == Some(l) {
                re
            } else {
                strip_scan_exec(cs, &f.delims[l], re)
            };
            assert(sf == strip_from(inp, l as int));
            let ce = trim_back_exec(cs, ls, sf);
            let code = crate::text::slice_range(cs, ls, ce);
            assert(code@ == code_of(inp, l as int));
            let comment: Vec<char> = match f.comments[l] {
                Some(c) => {
                    let a = trim_back_exec(cs, 0, c);
                    if a <= le {
                        crate::text::slice_range(cs, a, le)
                    } else {
                        Vec::new()
                    }
                },
                None => Vec::new(),
            };
            assert(comment@ == comment_of(inp, l as int));
            let blank = blank_exec(cs, ls, ce);
            if blank {
                codes.push(code);
                coms.push(comment);
                assert(out_of(codes@, coms@) == st.out.push((code_of(inp, l as int), comment_of(inp, l as int))));
            } else {
                let ie = skip_fwd_exec(cs, ls, ce);
                let x = col_at_exec(cs, ls, ie, tw, &f.savings[l]);
                assert(x == indent_col(inp, l as int));
                close_upto_exec(&mut codes, &coms, &mut stack, last, x);
                let ghost closed = close_upto(st.out, st.stack, st.last, x as int);
                let ghost closed_codes = codes@;
                codes.push(code);
                coms.push(comment);
                let ghost out = closed.0.push((code_of(inp, l as int), comment_of(inp, l as int)));
                assert(out_of(codes@, coms@) == out) by {
                    assert(out_of(closed_codes, coms@.drop_last()) == closed.0);
                }
                last = Some(codes.len() - 1);
                let ds = &f.delims[l];
                let ghost s0 = closed.1;
                let mut k: usize = 0;
                while k < ds.len()
                    invariant
                        facts_wf(f, inp),
                        inp.src == cs@,
                        inp.tw == tw,
                        ds@ == delims_on(inp.src, inp.toks, l as int),
                        l < n,
                        n == f.ranges@.len(),
                        ls == line_ranges(inp.src)[l as int].0,
                        f.savings@[l as int]@ == savings_on(inp.src, inp.nl, inp.toks, l as int),
                        k <= ds@.len(),
                        run_lines(inp, l as int) == Ok::<IndState, int>(st),
                        !in_multiline(inp.src, inp.toks, l as int),
                        !blank_code(inp, l as int),
                        sf == strip_from(inp, l as int),
                        closed == close_upto(st.out, st.stack, st.last, indent_col(inp, l as int)),
                        s0 == closed.1,
                        out == closed.0.push((code_of(inp, l as int), comment_of(inp, l as int))),
                        out_of(codes@, coms@) == out,
                        codes@.len() == coms@.len(),
                        last == Some((codes@.len() - 1) as usize),
                        track(inp, l as int, k as int, sf as int, stack_of(stack@)) == track(
                            inp,
                            l as int,
                            0,
                            sf as int,
                            s0,
                        ),
                    decreases ds.len() - k,
                {
                    let d = ds[k];
                    let ghost sk = stack_of(stack@);
                    if d.start >= sf {
                    } else if d.open {
                        let col = col_at_exec(cs, ls, d.start, tw, &f.savings[l]);
                        stack.push((d.delim, col));
                        assert(stack_of(stack@) == sk.push((d.delim, col as int)));
                    } else if stack.len() > 0 && stack[stack.len() - 1].0 == d.delim {
                        stack.pop();
                        assert(stack_of(stack@) == sk.drop_last());
                    } else {
                        proof {
                            assert(track(inp, l as int, k as int, sf as int, sk) == Err::<Seq<(Delim, int)>, int>(
                                d.start as int,
                            ));
                            assert(step(inp, st, l as int) == Err::<IndState, int>(d.start as int));
                            assert(run_lines(inp, l + 1) == Err::<IndState, int>(d.start as int));
                            lemma_run_lines_err(inp, l + 1, n as int);
                        }
                        return Err(d.start);
                    }
                    k = k + 1;
                }
            }
        }
        l = l + 1;
    }
    Ok((codes, coms, stack, last))
}

// --- Indent mode: the output text -------------------------------------------------

/// Join the output lines with `\n`, adding a final `\n` when `trailing`.
fn join_out(codes: &Vec<Vec<char>>, coms: &Vec<Vec<char>>, trailing: bool) -> (s: String)
    requires
        codes@.len() == coms@.len(),
    ensures
        s@ == join_lines(out_of(codes@, coms@).map_values(|p: (Seq<char>, Seq<char>)| p.0 + p.1)) + if trailing {
            seq!['\n']
        } else {
            Seq::empty()
        },
{
    let ghost lines = out_of(codes@, coms@).map_values(|p: (Seq<char>, Seq<char>)| p.0 + p.1);
    let mut s = String::new();
    let mut i: usize = 0;
    while i < codes.len()
        invariant
            codes@.len() == coms@.len(),
            lines == out_of(codes@, coms@).map_values(|p: (Seq<char>, Seq<char>)| p.0 + p.1),
            i <= codes@.len(),
            s@ == join_lines(lines.take(i as int)),
        decreases codes.len() - i,
    {
        let ghost before = s@;
        if i > 0 {
            push_char(&mut s, '\n');
        }
        push_range(&mut s, codes[i].as_slice(), 0, codes[i].len());
        push_range(&mut s, coms[i].as_slice(), 0, coms[i].len());
        proof {
            let t = lines.take(i + 1);
            assert(t.drop_last() == lines.take(i as int));
            assert(codes@[i as int]@.subrange(0, codes@[i as int]@.len() as int) == codes@[i as int]@);
            assert(coms@[i as int]@.subrange(0, coms@[i as int]@.len() as int) == coms@[i as int]@);
            assert(t.last() == codes@[i as int]@ + coms@[i as int]@);
            if i == 0 {
                assert(s@ == t[0]);
            } else {
                assert(s@ == before + seq!['\n'] + t.last());
            }
        }
        i = i + 1;
    }
    assert(lines.take(i as int) == lines);
    if trailing {
        push_char(&mut s, '\n');
    }
    s
}

// --- Indent mode: refusals ---------------------------------------------------------

/// Why indent mode refuses the input.
#[derive(Debug, Clone, Copy, PartialEq, Eq, Structural)]
pub enum Fault {
    /// An unterminated string, comment or delimited token starts here.
    Unclosed(usize),
    /// A backslash escapes the line end here.
    EolBackslash(usize),
    /// A closer with no opener to match stands here.
    Unmatched(usize),
}

/// The first unterminated lexeme's start, from the `k`-th lexeme on.
pub open spec fn first_unterminated(toks: Seq<Tok>, k: int) -> Option<usize>
    decreases toks.len() - k,
{
    if k < 0 || k >= toks.len() {
        None
    } else if toks[k].kind == LexKind::Unterminated {
        Some(toks[k].start)
    } else {
        first_unterminated(toks, k + 1)
    }
}

/// The last lexeme (in order) starting at or before `i`, among the first `k`.
pub open spec fn last_at_or_before(toks: Seq<Tok>, i: int, k: int) -> Option<int>
    decreases k,
{
    if k <= 0 || k > toks.len() {
        None
    } else if toks[k - 1].start <= i {
        Some(k - 1)
    } else {
        last_at_or_before(toks, i, k - 1)
    }
}

/// Whether the lexeme covering offset `i` is a string, comment, character or
/// boolean (where a backslash is content).
pub open spec fn benign(toks: Seq<Tok>, i: int) -> bool {
    match last_at_or_before(toks, i, toks.len() as int) {
        Some(j) => i < toks[j].end && (toks[j].kind == LexKind::Str || toks[j].kind
            == LexKind::LineComment || toks[j].kind == LexKind::BlockComment || toks[j].kind
            == LexKind::Char || toks[j].kind == LexKind::Bool),
        None => false,
    }
}

/// The first backslash at or after `i` that escapes a line end (or the end
/// of the text) outside a string, comment, character or boolean.
pub open spec fn first_bad_backslash(src: Seq<char>, toks: Seq<Tok>, i: int) -> Option<usize>
    decreases src.len() - i,
{
    if i < 0 || i >= src.len() {
        None
    } else if src[i] == '\\' && (i + 1 == src.len() || src[i + 1] == '\n') && !benign(toks, i) {
        Some(i as usize)
    } else {
        first_bad_backslash(src, toks, i + 1)
    }
}

/// The lexical state indent mode cannot resolve into balanced output, if any:
/// an unterminated lexeme, else a backslash escaping a line end.
pub open spec fn unresolvable(src: Seq<char>, toks: Seq<Tok>) -> Option<Fault> {
    match first_unterminated(toks, 0) {
        Some(o) => Some(Fault::Unclosed(o)),
        None => match first_bad_backslash(src, toks, 0) {
            Some(i) => Some(Fault::EolBackslash(i)),
            None => None,
        },
    }
}

fn unresolvable_exec(cs: &[char], toks: &Vec<Tok>) -> (r: Option<Fault>)
    ensures
        r == unresolvable(cs@, toks@),
{
    let mut k: usize = 0;
    while k < toks.len()
        invariant
            k <= toks@.len(),
            first_unterminated(toks@, 0) == first_unterminated(toks@, k as int),
        decreases toks.len() - k,
    {
        let is_open = match toks[k].kind {
            LexKind::Unterminated => true,
            _ => false,
        };
        if is_open {
            return Some(Fault::Unclosed(toks[k].start));
        }
        k = k + 1;
    }
    let mut i: usize = 0;
    while i < cs.len()
        invariant
            i <= cs@.len(),
            first_unterminated(toks@, 0) is None,
            first_bad_backslash(cs@, toks@, 0) == first_bad_backslash(cs@, toks@, i as int),
        decreases cs.len() - i,
    {
        if cs[i] == '\\' && (i + 1 == cs.len() || cs[i + 1] == '\n') {
            let mut j = toks.len();
            while j > 0 && toks[j - 1].start > i
                invariant
                    j <= toks@.len(),
                    last_at_or_before(toks@, i as int, j as int) == last_at_or_before(
                        toks@,
                        i as int,
                        toks@.len() as int,
                    ),
                decreases j,
            {
                j = j - 1;
            }
            let found: Option<usize> = if j > 0 {
                Some(j - 1)
            } else {
                None
            };
            let ok = match found {
                Some(q) => {
                    let t = toks[q];
                    i < t.end && match t.kind {
                        LexKind::Str | LexKind::LineComment | LexKind::BlockComment | LexKind::Char
                        | LexKind::Bool => true,
                        _ => false,
                    }
                },
                None => false,
            };
            assert(found == (match last_at_or_before(toks@, i as int, toks@.len() as int) {
                Some(q) => Some(q as usize),
                None => None::<usize>,
            }));
            assert(ok == benign(toks@, i as int));
            if !ok {
                return Some(Fault::EolBackslash(i));
            }
        }
        i = i + 1;
    }
    None
}

// --- Answers -------------------------------------------------------------------------

/// What an [`Error`] says.
pub struct ErrorV {
    pub name: Seq<char>,
    pub message: Seq<char>,
    pub line: int,
    pub x: int,
}

impl View for Error {
    type V = ErrorV;

    open spec fn view(&self) -> ErrorV {
        ErrorV { name: self.name@, message: self.message@, line: self.line as int, x: self.x as int }
    }
}

/// What an [`Answer`] says.
pub struct AnswerV {
    pub text: Seq<char>,
    pub success: bool,
    pub error: Option<ErrorV>,
    pub cursor: Option<Cursor>,
}

impl View for Answer {
    type V = AnswerV;

    open spec fn view(&self) -> AnswerV {
        AnswerV {
            text: self.text@,
            success: self.success,
            error: match self.error {
                Some(e) => Some(e@),
                None => None,
            },
            cursor: self.cursor,
        }
    }
}

/// The 0-based character column of offset `k`: the characters since the
/// last `\n` before it.
pub open spec fn col_of(src: Seq<char>, k: int) -> int
    decreases k,
{
    if k <= 0 {
        0
    } else if k > src.len() {
        col_of(src, src.len() as int)
    } else if src[k - 1] == '\n' {
        0
    } else {
        col_of(src, k - 1) + 1
    }
}

/// The offset `off` clamped to the text.
pub open spec fn clamp_off(src: Seq<char>, off: int) -> int {
    if off < src.len() {
        off
    } else {
        src.len() as int
    }
}

/// An error named `name` saying `message`, placed at offset `off` of `src`.
pub open spec fn error_at(src: Seq<char>, name: Seq<char>, message: Seq<char>, off: int) -> ErrorV {
    let o = clamp_off(src, off);
    ErrorV { name, message, line: nl_count(src, o) as int, x: col_of(src, o) }
}

/// The error a refusal of indent mode reports.
pub open spec fn fault_error(src: Seq<char>, f: Fault) -> ErrorV {
    match f {
        Fault::Unclosed(o) => error_at(
            src,
            "unclosed-quote"@,
            "unterminated string, comment, or delimited token"@,
            o as int,
        ),
        Fault::EolBackslash(o) => error_at(src, "eol-backslash"@, "backslash at end of line"@, o as int),
        Fault::Unmatched(o) => error_at(src, "unmatched-close-paren"@, "unmatched close paren"@, o as int),
    }
}

/// A short, stable name for a parse diagnostic: round-list imbalance maps to
/// the familiar parinfer names, the rest keep descriptive names.
pub open spec fn error_name(k: FaultKind) -> Seq<char> {
    match k {
        FaultKind::UnclosedList => "unclosed-paren"@,
        FaultKind::UnexpectedDelimiter => "unmatched-close-paren"@,
        FaultKind::MismatchedDelimiter => "mismatched-close-paren"@,
        FaultKind::MalformedToken => "malformed-token"@,
        FaultKind::DanglingPrefix => "dangling-prefix"@,
        FaultKind::DanglingTag => "dangling-tag"@,
        FaultKind::DanglingLabel => "dangling-label"@,
        FaultKind::DanglingDot => "dangling-dot"@,
        FaultKind::ItemAfterDottedTail => "item-after-dotted-tail"@,
        FaultKind::DepthLimitExceeded => "depth-limit-exceeded"@,
        FaultKind::Other => "parse-error"@,
    }
}

/// The error for a parse diagnostic of `text`.
pub open spec fn parse_error(text: Seq<char>, pf: (FaultKind, Seq<char>, u32)) -> ErrorV {
    error_at(text, error_name(pf.0), pf.1, chars_before(text, pf.2 as int))
}

/// The cursor kept on its line and clamped to the line's length in `text`.
pub open spec fn clamp_cursor(text: Seq<char>, c: Cursor) -> Cursor {
    let ls = rust_lines(text);
    let len = if (c.line as int) < ls.len() {
        ls[c.line as int].len() as int
    } else {
        c.x as int
    };
    Cursor {
        line: c.line,
        x: if (c.x as int) <= len {
            c.x
        } else {
            len as usize
        },
    }
}

/// The input, unchanged, refused with `e`.
pub open spec fn refusal(src: Seq<char>, e: ErrorV, cursor: Option<Cursor>) -> AnswerV {
    AnswerV { text: src, success: false, error: Some(e), cursor }
}

/// Indent mode over `src` read as `toks`: a whitespace-only text is its own
/// answer; an unresolvable lexical state, an unmatched closer, or output the
/// reader `dialect` would not parse clean refuse the input unchanged;
/// otherwise the inferred text, with the cursor clamped to its line.
pub open spec fn indent_answer(
    src: Seq<char>,
    toks: Seq<Tok>,
    protect: Option<int>,
    tw: int,
    nl: Option<Seq<(Seq<char>, nat)>>,
    dialect: Seq<char>,
    cursor: Option<Cursor>,
) -> AnswerV {
    if crate::text::all_ws(src) {
        AnswerV { text: src, success: true, error: None, cursor }
    } else {
        match unresolvable(src, toks) {
            Some(f) => refusal(src, fault_error(src, f), cursor),
            None => {
                let inp = IndentInput { src, toks, protect, tw, nl };
                match run_lines(inp, line_ranges(src).len() as int) {
                    Err(o) => refusal(src, fault_error(src, Fault::Unmatched(o as usize)), cursor),
                    Ok(st) => {
                        let text = indent_text(inp, st);
                        match first_fault(text, dialect) {
                            Some(pf) => refusal(src, parse_error(text, pf), cursor),
                            None => AnswerV {
                                text,
                                success: true,
                                error: None,
                                cursor: match cursor {
                                    Some(c) => Some(clamp_cursor(text, c)),
                                    None => None,
                                },
                            },
                        }
                    },
                }
            },
        }
    }
}

/// The lexemes of `text` in `dialect`, with character offsets.
pub open spec fn toks_of(text: Seq<char>, dialect: Dialect) -> Seq<Tok> {
    lexed(text, dialect_name_spec(dialect)).map_values(|t: LexTok| char_tok(text, t))
}

/// The tab width indent mode measures with (at least 1).
pub open spec fn tab_of(cfg: FormatConfig) -> int {
    if cfg.tab_width >= 1 {
        cfg.tab_width as int
    } else {
        1
    }
}

/// The error at offset `off` of `cs`.
fn error_at_exec(cs: &[char], name: &str, message: String, off: usize) -> (e: Error)
    ensures
        e@ == error_at(cs@, name@, message@, off as int),
{
    let o = if off < cs.len() {
        off
    } else {
        cs.len()
    };
    let mut line: usize = 0;
    let mut x: usize = 0;
    let mut k: usize = 0;
    while k < o
        invariant
            k <= o <= cs@.len(),
            line == nl_count(cs@, k as int),
            x == col_of(cs@, k as int),
            line <= k,
            x <= k,
        decreases o - k,
    {
        if cs[k] == '\n' {
            line = line + 1;
            x = 0;
        } else {
            x = x + 1;
        }
        k = k + 1;
    }
    Error { name: String::from_str(name), message, line, x }
}

fn fault_error_exec(cs: &[char], f: Fault) -> (e: Error)
    ensures
        e@ == fault_error(cs@, f),
{
    match f {
        Fault::Unclosed(o) => error_at_exec(
            cs,
            "unclosed-quote",
            String::from_str("unterminated string, comment, or delimited token"),
            o,
        ),
        Fault::EolBackslash(o) => error_at_exec(
            cs,
            "eol-backslash",
            String::from_str("backslash at end of line"),
            o,
        ),
        Fault::Unmatched(o) => error_at_exec(
            cs,
            "unmatched-close-paren",
            String::from_str("unmatched close paren"),
            o,
        ),
    }
}

fn error_name_exec(k: FaultKind) -> (s: &'static str)
    ensures
        s@ == error_name(k),
{
    match k {
        FaultKind::UnclosedList => "unclosed-paren",
        FaultKind::UnexpectedDelimiter => "unmatched-close-paren",
        FaultKind::MismatchedDelimiter => "mismatched-close-paren",
        FaultKind::MalformedToken => "malformed-token",
        FaultKind::DanglingPrefix => "dangling-prefix",
        FaultKind::DanglingTag => "dangling-tag",
        FaultKind::DanglingLabel => "dangling-label",
        FaultKind::DanglingDot => "dangling-dot",
        FaultKind::ItemAfterDottedTail => "item-after-dotted-tail",
        FaultKind::DepthLimitExceeded => "depth-limit-exceeded",
        FaultKind::Other => "parse-error",
    }
}

/// The error for a parse diagnostic of `text`.
fn parse_error_exec(text: &str, k: FaultKind, message: String, b: u32) -> (e: Error)
    ensures
        e@ == parse_error(text@, (k, message@, b)),
{
    let cs = chars_of(text);
    let map = byte_to_char_map(cs.as_slice());
    let off = chars_before_exec(cs.as_slice(), &map, b as usize);
    error_at_exec(cs.as_slice(), error_name_exec(k), message, off)
}

/// Clamp the cursor to its line's length in `text`.
fn clamp_cursor_exec(text: &[char], c: Cursor) -> (r: Cursor)
    ensures
        r == clamp_cursor(text@, c),
{
    let spans = rust_line_spans(text);
    let len = if c.line < spans.len() {
        let (a, b) = spans[c.line];
        assert(b - a == rust_lines(text@)[c.line as int].len());
        b - a
    } else {
        c.x
    };
    Cursor {
        line: c.line,
        x: if c.x <= len {
            c.x
        } else {
            len
        },
    }
}

/// The input, unchanged, refused with `e`.
fn refuse(src: &str, e: Error, cursor: Option<Cursor>) -> (a: Answer)
    ensures
        a@ == refusal(src@, e@, cursor),
{
    Answer { text: String::from_str(src), success: false, error: Some(e), cursor }
}

// --- Indent mode ------------------------------------------------------------------------

/// Indent mode with `protect` naming the line whose trailing closers are kept
/// verbatim (the cursor line), or none.
pub open spec fn indent_inner(req: Request, protect: Option<int>) -> AnswerV {
    indent_answer(
        req.text@,
        toks_of(req.text@, req.dialect),
        protect,
        tab_of(req.config),
        nameless_view(&req.nameless),
        dialect_name_spec(req.dialect),
        req.cursor,
    )
}

/// Indent mode: with a cursor, the trail on the cursor's line is protected,
/// unless protecting it prevents a balanced result, when the transform is
/// run again without it.
pub open spec fn indent_mode(req: Request) -> AnswerV {
    match req.cursor {
        Some(c) => {
            let protected = indent_inner(req, Some(c.line as int));
            if protected.success {
                protected
            } else {
                indent_inner(req, None)
            }
        },
        None => indent_inner(req, None),
    }
}

/// The indent-mode core, protecting line `protect` when given.
fn run_indent_inner(req: &Request, protect: Option<usize>) -> (a: Answer)
    ensures
        a@ == indent_inner(*req, opt_int(protect)),
{
    let src = req.text;
    let cs = chars_of(src);
    assert(cs@.subrange(0, cs@.len() as int) == cs@);
    if crate::text::is_blank(cs.as_slice(), 0, cs.len()) {
        return Answer { text: String::from_str(src), success: true, error: None, cursor: req.cursor };
    }
    let dname = dialect_name(req.dialect);
    let lex = lx_lex(src, dname);
    let toks = char_tokens(cs.as_slice(), &lex);
    if let Some(f) = unresolvable_exec(cs.as_slice(), &toks) {
        return refuse(src, fault_error_exec(cs.as_slice(), f), req.cursor);
    }
    let tw: usize = if req.config.tab_width >= 1 {
        req.config.tab_width
    } else {
        1
    };
    let nl = line_numbers(cs.as_slice());
    let ranges = line_ranges_exec(cs.as_slice());
    let n = ranges.len();
    let facts = Facts {
        delims: delim_table(cs.as_slice(), &toks, &nl, n),
        comments: comment_table(cs.as_slice(), &toks, &nl, n),
        multiline: multiline_table(cs.as_slice(), &toks, &nl, n),
        savings: savings_table(cs.as_slice(), &toks, &nl, n, &req.nameless),
        ranges,
    };
    let ghost inp = IndentInput {
        src: cs@,
        toks: toks@,
        protect: opt_int(protect),
        tw: tw as int,
        nl: nameless_view(&req.nameless),
    };
    match indent_lines(cs.as_slice(), &facts, protect, tw, Ghost(inp)) {
        Err(o) => refuse(src, fault_error_exec(cs.as_slice(), Fault::Unmatched(o)), req.cursor),
        Ok((codes, coms, stack, last)) => {
            let mut codes = codes;
            let mut stack = stack;
            let ghost st = IndState { out: out_of(codes@, coms@), stack: stack_of(stack@), last: opt_int(last) };
            close_upto_exec(&mut codes, &coms, &mut stack, last, 0);
            let trailing = cs.len() > 0 && cs[cs.len() - 1] == '\n';
            let text = join_out(&codes, &coms, trailing);
            assert(text@ == indent_text(inp, st));
            match lx_first_fault(text.as_str(), dname) {
                Some((k, m, b)) => {
                    let e = parse_error_exec(text.as_str(), k, m, b);
                    refuse(src, e, req.cursor)
                },
                None => {
                    let cursor = match req.cursor {
                        Some(c) => {
                            let tcs = chars_of(text.as_str());
                            Some(clamp_cursor_exec(tcs.as_slice(), c))
                        },
                        None => None,
                    };
                    Answer { text, success: true, error: None, cursor }
                },
            }
        },
    }
}

/// Indent mode: indentation is authoritative; infer the close-paren
/// placement, protecting the cursor line's trail when that still balances.
fn run_indent(req: &Request) -> (a: Answer)
    ensures
        a@ == indent_mode(*req),
{
    if let Some(c) = req.cursor {
        let protected = run_indent_inner(req, Some(c.line));
        if protected.success {
            return protected;
        }
    }
    run_indent_inner(req, None)
}

// --- Paren mode ----------------------------------------------------------------------

/// The number of leading spaces and tabs of `s`.
pub open spec fn leading_ws(s: Seq<char>) -> int
    decreases s.len(),
{
    if s.len() == 0 || !sp_tab(s[0]) {
        0
    } else {
        1 + leading_ws(s.drop_first())
    }
}

/// A cursor carried across a reindent: it keeps its line and shifts by that
/// line's indentation change; one inside the old indentation lands at the new
/// indent. A line missing from either text leaves it as it was.
pub open spec fn remap_cursor(old: Seq<char>, new: Seq<char>, c: Cursor) -> Cursor {
    let ol = rust_lines(old);
    let nw = rust_lines(new);
    if (c.line as int) < ol.len() && (c.line as int) < nw.len() {
        let oi = leading_ws(ol[c.line as int]);
        let ni = leading_ws(nw[c.line as int]);
        let x = if c.x <= oi {
            ni
        } else {
            let shifted = c.x + ni - oi;
            if shifted >= 0 {
                sat(shifted)
            } else {
                0
            }
        };
        Cursor { line: c.line, x: x as usize }
    } else {
        c
    }
}

/// The leading spaces and tabs of `s[a..b]`.
fn leading_ws_exec(s: &[char], a: usize, b: usize) -> (n: usize)
    requires
        a <= b <= s@.len(),
    ensures
        n == leading_ws(s@.subrange(a as int, b as int)),
        n <= b - a,
{
    let mut k = a;
    while k < b && (s[k] == ' ' || s[k] == '\t')
        invariant
            a <= k <= b <= s@.len(),
            forall|q: int| a <= q < k ==> sp_tab(#[trigger] s@[q]),
            leading_ws(s@.subrange(a as int, b as int)) == (k - a) + leading_ws(s@.subrange(k as int, b as int)),
        decreases b - k,
    {
        assert(s@.subrange(k as int, b as int).drop_first() == s@.subrange(k + 1, b as int));
        k = k + 1;
    }
    k - a
}

/// Carry a cursor across a reindent.
fn remap_cursor_exec(old: &[char], new: &[char], c: Cursor) -> (r: Cursor)
    ensures
        r == remap_cursor(old@, new@, c),
{
    let ol = rust_line_spans(old);
    let nw = rust_line_spans(new);
    if c.line < ol.len() && c.line < nw.len() {
        let oi = leading_ws_exec(old, ol[c.line].0, ol[c.line].1);
        let ni = leading_ws_exec(new, nw[c.line].0, nw[c.line].1);
        let x = if c.x <= oi {
            ni
        } else if ni >= oi {
            c.x.saturating_add(ni - oi)
        } else {
            let d = oi - ni;
            if c.x >= d {
                c.x - d
            } else {
                0
            }
        };
        Cursor { line: c.line, x }
    } else {
        c
    }
}

/// The Nameless overlay paren mode measures with: Emacs Lisp only.
pub open spec fn paren_nameless(req: Request) -> Option<Seq<(Seq<char>, nat)>> {
    if req.dialect == Dialect::EmacsLisp {
        nameless_view(&req.nameless)
    } else {
        None
    }
}

/// A successful paren-mode answer: the formatter's reindent of the text
/// (read as the dialect), with the cursor carried across it.
pub open spec fn paren_success(req: Request, a: AnswerV) -> bool {
    &&& a.success
    &&& a.error is None
    &&& exists|forms: Seq<crate::reader::Node>|
        crate::reader::reads_as(req.text@, dialect_name_spec(req.dialect), true, forms)
        && a.text == #[trigger] crate::format::formatted(
            crate::format::engine_of(req.dialect),
            req.text@,
            forms,
            crate::format::elisp_specs(req.text@),
            req.config,
            paren_nameless(req),
            None,
        )
    &&& a.cursor == match req.cursor {
        Some(c) => Some(remap_cursor(req.text@, a.text, c)),
        None => None,
    }
}

/// Paren mode: balanced input is reindented by the formatter (under Nameless
/// for Emacs Lisp when the overlay is on); input the reader does not parse
/// clean is refused unchanged with the first diagnostic.
fn run_paren(req: &Request) -> (a: Answer)
    ensures
        match first_fault(req.text@, dialect_name_spec(req.dialect)) {
            Some(pf) => a@ == refusal(req.text@, parse_error(req.text@, pf), req.cursor),
            None => paren_success(*req, a@),
        },
{
    let dname = dialect_name(req.dialect);
    if let Some((k, m, b)) = lx_first_fault(req.text, dname) {
        let e = parse_error_exec(req.text, k, m, b);
        return refuse(req.text, e, req.cursor);
    }
    let formatted = match (&req.nameless, req.dialect) {
        (Some(nl), Dialect::EmacsLisp) => crate::format::format_elisp_nameless(req.text, &req.config, nl),
        _ => crate::format::format(req.text, &req.config, req.dialect),
    };
    let cursor = match req.cursor {
        Some(c) => {
            let old = chars_of(req.text);
            let new = chars_of(formatted.as_str());
            Some(remap_cursor_exec(old.as_slice(), new.as_slice(), c))
        },
        None => None,
    };
    Answer { text: formatted, success: true, error: None, cursor }
}

/// Run the parinfer transform described by `req`.
pub fn run(req: &Request) -> (a: Answer)
    ensures
        req.mode == Mode::Indent ==> a@ == indent_mode(*req),
        req.mode == Mode::Paren ==> match first_fault(req.text@, dialect_name_spec(req.dialect)) {
            Some(pf) => a@ == refusal(req.text@, parse_error(req.text@, pf), req.cursor),
            None => paren_success(*req, a@),
        },
{
    match req.mode {
        Mode::Paren => run_paren(req),
        Mode::Indent => run_indent(req),
    }
}

// --- What indent mode keeps -------------------------------------------------------------

/// Whether `s` holds only closing delimiters.
pub open spec fn closers_only(s: Seq<char>) -> bool {
    forall|k: int| 0 <= k < s.len() ==> (#[trigger] s[k] == ')' || s[k] == ']' || s[k] == '}')
}

/// Output line `l` is input line `l` as indent mode treats it: a line inside
/// a multi-line string or comment verbatim; any other line its kept code
/// (indentation included) followed by closing delimiters only, then its
/// trailing comment.
pub open spec fn kept_line(inp: IndentInput, out: Seq<(Seq<char>, Seq<char>)>, l: int) -> bool {
    let r = line_ranges(inp.src)[l];
    if in_multiline(inp.src, inp.toks, l) {
        out[l] == (inp.src.subrange(r.0, r.1), Seq::<char>::empty())
    } else {
        let code = code_of(inp, l);
        &&& out[l].1 == comment_of(inp, l)
        &&& code.len() <= out[l].0.len()
        &&& out[l].0.subrange(0, code.len() as int) == code
        &&& closers_only(out[l].0.subrange(code.len() as int, out[l].0.len() as int))
    }
}

/// The lines so far are all kept lines, and inferred closers go to a line
/// outside any multi-line string or comment.
pub open spec fn kept_state(inp: IndentInput, st: IndState, k: int) -> bool {
    &&& st.out.len() == k
    &&& forall|l: int| 0 <= l < k ==> #[trigger] kept_line(inp, st.out, l)
    &&& st.last matches Some(i) ==> 0 <= i < k && !in_multiline(inp.src, inp.toks, i)
}

proof fn lemma_close_upto_keeps(inp: IndentInput, st: IndState, k: int, x: int)
    requires
        kept_state(inp, st, k),
    ensures
        kept_state(inp, IndState { out: close_upto(st.out, st.stack, st.last, x).0, ..st }, k),
    decreases st.stack.len(),
{
    if st.stack.len() > 0 && st.stack.last().1 >= x {
        let out2 = append_closer(st.out, st.last, st.stack.last().0);
        let st2 = IndState { out: out2, stack: st.stack.drop_last(), ..st };
        assert forall|l: int| 0 <= l < k implies #[trigger] kept_line(inp, out2, l) by {
            assert(kept_line(inp, st.out, l));
            if st.last == Some(l) {
                let code = code_of(inp, l);
                let old0 = st.out[l].0;
                let g = close_glyph(st.stack.last().0);
                assert(out2[l].0 == old0.push(g));
                assert(out2[l].0.subrange(0, code.len() as int) == old0.subrange(0, code.len() as int));
                let tail_old = old0.subrange(code.len() as int, old0.len() as int);
                assert(out2[l].0.subrange(code.len() as int, out2[l].0.len() as int) == tail_old.push(g));
            }
        }
        lemma_close_upto_keeps(inp, st2, k, x);
        assert(close_upto(st.out, st.stack, st.last, x) == close_upto(st2.out, st2.stack, st2.last, x));
    }
}

proof fn lemma_run_lines_keeps(inp: IndentInput, k: int)
    requires
        0 <= k <= line_ranges(inp.src).len(),
    ensures
        run_lines(inp, k) matches Ok(st) ==> kept_state(inp, st, k),
    decreases k,
{
    if k > 0 {
        lemma_run_lines_keeps(inp, k - 1);
        if let Ok(st) = run_lines(inp, k - 1) {
            let l = k - 1;
            let r = line_ranges(inp.src)[l];
            if in_multiline(inp.src, inp.toks, l) {
                let out = st.out.push((inp.src.subrange(r.0, r.1), Seq::<char>::empty()));
                assert forall|q: int| 0 <= q < k implies #[trigger] kept_line(inp, out, q) by {
                    if q < l {
                        assert(kept_line(inp, st.out, q));
                    }
                }
            } else if blank_code(inp, l) {
                let out = st.out.push((code_of(inp, l), comment_of(inp, l)));
                assert forall|q: int| 0 <= q < k implies #[trigger] kept_line(inp, out, q) by {
                    if q < l {
                        assert(kept_line(inp, st.out, q));
                    } else {
                        assert(out[q].0.subrange(0, code_of(inp, l).len() as int) == code_of(inp, l));
                    }
                }
            } else {
                let x = indent_col(inp, l);
                lemma_close_upto_keeps(inp, st, l, x);
                let closed = close_upto(st.out, st.stack, st.last, x);
                let mid = IndState { out: closed.0, ..st };
                assert(kept_state(inp, mid, l));
                let out = closed.0.push((code_of(inp, l), comment_of(inp, l)));
                assert forall|q: int| 0 <= q < k implies #[trigger] kept_line(inp, out, q) by {
                    if q < l {
                        assert(kept_line(inp, closed.0, q));
                    } else {
                        assert(out[q].0.subrange(0, code_of(inp, l).len() as int) == code_of(inp, l));
                    }
                }
            }
        }
    }
}

/// Indent mode moves only closing delimiters. When every line is processed,
/// there is one output line per input line; a line inside a multi-line string
/// or comment is kept verbatim, and every other line keeps its code —
/// indentation first — with only closing delimiters after it, then its
/// trailing comment. Closing what is still open at the end keeps that shape.
pub proof fn law_indent_mode_moves_only_closers(inp: IndentInput)
    ensures
        run_lines(inp, line_ranges(inp.src).len() as int) matches Ok(st) ==> {
            let fin = close_upto(st.out, st.stack, st.last, 0).0;
            &&& fin.len() == line_ranges(inp.src).len()
            &&& forall|l: int| 0 <= l < fin.len() ==> #[trigger] kept_line(inp, fin, l)
        },
{
    let n = line_ranges(inp.src).len() as int;
    lemma_run_lines_keeps(inp, n);
    if let Ok(st) = run_lines(inp, n) {
        lemma_close_upto_keeps(inp, st, n, 0);
    }
}

/// The output lines (code, comment) of indent mode over `inp` once every
/// line is processed and what is still open is closed (none when a closer
/// is unmatched).
pub open spec fn final_lines(inp: IndentInput) -> Seq<(Seq<char>, Seq<char>)> {
    match run_lines(inp, line_ranges(inp.src).len() as int) {
        Ok(st) => close_upto(st.out, st.stack, st.last, 0).0,
        Err(_) => Seq::empty(),
    }
}

/// Indent mode moves only closing delimiters, read on the returned text: a
/// successful run over a text that is not blank returns the input's lines
/// one for one, joined with `\n` (the input's final `\n` kept). Each line is
/// kept whole inside a multi-line string or comment; any other keeps its
/// code, indentation first, verbatim from the input line, followed only by
/// closing delimiters, then its trailing comment.
pub proof fn law_indent_text_moves_only_closers(req: Request, protect: Option<int>)
    ensures
        ({
            let src = req.text@;
            let inp = IndentInput {
                src,
                toks: toks_of(src, req.dialect),
                protect,
                tw: tab_of(req.config),
                nl: nameless_view(&req.nameless),
            };
            let a = indent_inner(req, protect);
            let fin = final_lines(inp);
            a.success && !crate::text::all_ws(src) ==> {
                &&& fin.len() == line_ranges(src).len()
                &&& forall|l: int| 0 <= l < fin.len() ==> #[trigger] kept_line(inp, fin, l)
                &&& a.text == join_lines(fin.map_values(|p: (Seq<char>, Seq<char>)| p.0 + p.1)) + if src.len()
                    > 0 && src.last() == '\n' {
                    seq!['\n']
                } else {
                    Seq::empty()
                }
            }
        }),
{
    let src = req.text@;
    let inp = IndentInput {
        src,
        toks: toks_of(src, req.dialect),
        protect,
        tw: tab_of(req.config),
        nl: nameless_view(&req.nameless),
    };
    law_indent_mode_moves_only_closers(inp);
    let a = indent_inner(req, protect);
    if a.success && !crate::text::all_ws(src) {
        if let Ok(st) = run_lines(inp, line_ranges(src).len() as int) {
            assert(a.text == indent_text(inp, st));
        }
    }
}

/// A refused transform returns the input unchanged, with a diagnostic.
pub proof fn law_refusal_returns_input(req: Request)
    ensures
        !indent_mode(req).success ==> indent_mode(req).text == req.text@ && indent_mode(req).error is Some,
        !indent_inner(req, None).success ==> indent_inner(req, None).text == req.text@,
{
}

/// A successful indent-mode transform generates balance: unless the input is
/// whitespace only (and returned as it is), the output parses clean.
pub proof fn law_success_parses_clean(req: Request)
    ensures
        indent_mode(req).success ==> (crate::text::all_ws(req.text@) && indent_mode(req).text
            == req.text@) || first_fault(indent_mode(req).text, dialect_name_spec(req.dialect)) is None,
{
}

} // verus!
