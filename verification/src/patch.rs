//! Parsing the Patch DSL.
//!
//! A Patch is `@ <file-hash>` then one op per line, with heredoc payloads:
//!
//! ```text
//! @ 568dfe9533e9302f
//! replace 12:a3f2 <<END
//! (new content)
//! END
//! delete 20:b7e1
//! ```
//!
//! Line-hash patches carry `replace` / `delete` / `insert-after` /
//! `insert-before`; Structural patches carry the structural op set. A heredoc
//! payload is its lines joined with `\n`, without a trailing newline.

use vstd::prelude::*;

use vstd::string::StringExecFns;
use vstd::utf8::encode_utf8;

use crate::edit::{clamp_usize, landed, landed_spans, line_starts, splice, splice_spec, Edit, SpliceError};
use crate::config::FormatConfig;
use crate::format::{byte_table, elisp_specs, engine_of, formatted, node_string, node_text, reindent, touched_mask, Touched};
use crate::nameless::{prefixes_for, Nameless};
use crate::outline::{disappeared_definitions, disappeared_spec, outline_spec};
use crate::reader::{dialect_name_spec, read, reads_as, Dialect, Node, Shape};
use crate::resolve::{resolve_in, resolve_spec, LocV, Located};
use crate::structural::{
    barf_backward, barf_backward_spec, barf_forward, barf_forward_spec, byte_table_of, edit_is, edits_are, et, join,
    join_spec, raise, raise_spec, rename, rename_in, slurp_backward, slurp_backward_spec, slurp_forward,
    slurp_forward_spec, splice_list_spec, split, split_spec, wrap, wrap_spec, EditT,
};
use crate::format::join_lines;
use crate::hash::{anchor_hash, anchor_hash_spec, file_hash, file_hash_spec};
use crate::write::WriteError;
use crate::text::{
    all_ws, chars_of, is_blank, parse_u64, parse_unsigned, push_char, push_range, rust_line_spans,
    rust_lines, slice_range, string_of_range, trim, words, word_spans, parse_usize, line_numbers, nl_count,
    parse_usize_spec, word_bounds, seq_eq,
};

verus! {

/// A `line:hash` anchor, with an optional collision ordinal `line:hash:N`.
#[derive(Debug, PartialEq, Eq)]
pub struct Anchor {
    /// 1-based line.
    pub line: u32,
    /// The expected content hash.
    pub hash: String,
    /// Same-line collision ordinal, if present.
    pub ordinal: Option<u32>,
}

/// The value an [`Anchor`] holds.
pub struct AnchorV {
    pub line: u32,
    pub hash: Seq<char>,
    pub ordinal: Option<u32>,
}

impl View for Anchor {
    type V = AnchorV;

    open spec fn view(&self) -> AnchorV {
        AnchorV { line: self.line, hash: self.hash@, ordinal: self.ordinal }
    }
}

/// Why a Patch could not be parsed.
#[derive(Debug, PartialEq, Eq)]
pub enum PatchError {
    /// The leading `@ <file-hash>` header is missing.
    MissingHeader,
    /// An op line could not be understood.
    BadOp(String),
    /// An anchor was not `line:hash[:ordinal]`.
    BadAnchor(String),
    /// A heredoc payload was never closed.
    UnterminatedHeredoc,
}

pub enum PatchErrorV {
    MissingHeader,
    BadOp(Seq<char>),
    BadAnchor(Seq<char>),
    UnterminatedHeredoc,
}

impl View for PatchError {
    type V = PatchErrorV;

    open spec fn view(&self) -> PatchErrorV {
        match self {
            PatchError::MissingHeader => PatchErrorV::MissingHeader,
            PatchError::BadOp(s) => PatchErrorV::BadOp(s@),
            PatchError::BadAnchor(s) => PatchErrorV::BadAnchor(s@),
            PatchError::UnterminatedHeredoc => PatchErrorV::UnterminatedHeredoc,
        }
    }
}

// --- Anchors ---------------------------------------------------------------------

/// The first index at or after `i` holding `c` (or `s.len()`).
pub open spec fn next_char(s: Seq<char>, c: char, i: int) -> int
    decreases s.len() - i,
{
    if i < 0 {
        next_char(s, c, 0)
    } else if i >= s.len() {
        s.len() as int
    } else if s[i] == c {
        i
    } else {
        next_char(s, c, i + 1)
    }
}

pub proof fn lemma_next_char(s: Seq<char>, c: char, i: int)
    requires
        0 <= i,
    ensures
        i <= s.len() ==> i <= next_char(s, c, i) <= s.len(),
        i > s.len() ==> next_char(s, c, i) == s.len(),
    decreases s.len() - i,
{
    if i < s.len() && s[i] != c {
        lemma_next_char(s, c, i + 1);
    }
}

fn next_char_exec(s: &[char], c: char, i: usize) -> (j: usize)
    requires
        i <= s@.len(),
    ensures
        j == next_char(s@, c, i as int),
        i <= j <= s@.len(),
{
    let mut j = i;
    while j < s.len() && s[j] != c
        invariant
            i <= j <= s@.len(),
            next_char(s@, c, j as int) == next_char(s@, c, i as int),
        decreases s.len() - j,
    {
        j = j + 1;
    }
    j
}

/// A `u32` parsed as Rust's `FromStr` does.
pub open spec fn parse_u32_spec(s: Seq<char>) -> Option<u32> {
    match parse_unsigned(s, u32::MAX as nat) {
        Some(v) => Some(v as u32),
        None => None,
    }
}

fn parse_u32(s: &[char], from: usize, to: usize) -> (r: Option<u32>)
    requires
        from <= to <= s@.len(),
    ensures
        r == parse_u32_spec(s@.subrange(from as int, to as int)),
{
    match parse_u64(s, from, to) {
        Some(v) => {
            if v <= u32::MAX as u64 {
                assert(parse_unsigned(s@.subrange(from as int, to as int), u32::MAX as nat) == Some(
                    v as nat,
                ));
                Some(v as u32)
            } else {
                assert(parse_unsigned(s@.subrange(from as int, to as int), u32::MAX as nat) is None);
                None
            }
        },
        None => {
            assert(parse_unsigned(s@.subrange(from as int, to as int), u32::MAX as nat) is None);
            None
        },
    }
}

/// `line:hash[:ordinal]`: the line and ordinal are `u32`s, the hash is
/// non-empty; anything after a third `:` is ignored.
pub open spec fn parse_anchor_spec(tok: Seq<char>) -> Result<AnchorV, PatchErrorV> {
    let j0 = next_char(tok, ':', 0);
    let bad = PatchErrorV::BadAnchor(tok);
    match parse_u32_spec(tok.subrange(0, j0)) {
        None => Err(bad),
        Some(line) => if j0 >= tok.len() {
            Err(bad)
        } else {
            let j1 = next_char(tok, ':', j0 + 1);
            let hash = tok.subrange(j0 + 1, j1);
            if hash.len() == 0 {
                Err(bad)
            } else if j1 >= tok.len() {
                Ok(AnchorV { line, hash, ordinal: None })
            } else {
                let j2 = next_char(tok, ':', j1 + 1);
                match parse_u32_spec(tok.subrange(j1 + 1, j2)) {
                    Some(o) => Ok(AnchorV { line, hash, ordinal: Some(o) }),
                    None => Err(bad),
                }
            }
        },
    }
}

pub open spec fn anchor_result_view(r: Result<Anchor, PatchError>) -> Result<AnchorV, PatchErrorV> {
    match r {
        Ok(a) => Ok(a@),
        Err(e) => Err(e@),
    }
}

/// Parse the anchor `s[from..to]`.
pub fn parse_anchor(s: &[char], from: usize, to: usize) -> (r: Result<Anchor, PatchError>)
    requires
        from <= to <= s@.len(),
    ensures
        anchor_result_view(r) == parse_anchor_spec(s@.subrange(from as int, to as int)),
{
    let tok = slice_range(s, from, to);
    let t = tok.as_slice();
    let ghost tv = t@;
    assert(t@.subrange(0, t@.len() as int) == t@);
    let j0 = next_char_exec(t, ':', 0);
    let line = match parse_u32(t, 0, j0) {
        Some(l) => l,
        None => return Err(PatchError::BadAnchor(string_of_range(t, 0, t.len()))),
    };
    if j0 >= t.len() {
        return Err(PatchError::BadAnchor(string_of_range(t, 0, t.len())));
    }
    let j1 = next_char_exec(t, ':', j0 + 1);
    if j1 == j0 + 1 {
        return Err(PatchError::BadAnchor(string_of_range(t, 0, t.len())));
    }
    let hash = string_of_range(t, j0 + 1, j1);
    if j1 >= t.len() {
        return Ok(Anchor { line, hash, ordinal: None });
    }
    let j2 = next_char_exec(t, ':', j1 + 1);
    match parse_u32(t, j1 + 1, j2) {
        Some(o) => Ok(Anchor { line, hash, ordinal: Some(o) }),
        None => Err(PatchError::BadAnchor(string_of_range(t, 0, t.len()))),
    }
}

// --- Header and heredocs ------------------------------------------------------------

/// The header among `lines[i..]`: blank lines are skipped; the first other
/// line must be `@` followed by a non-blank hash (trimmed). Returns the hash
/// and the index of the line after the header.
pub open spec fn header_from(lines: Seq<Seq<char>>, i: int) -> Result<(Seq<char>, int), PatchErrorV>
    decreases lines.len() - i,
{
    if i < 0 || i >= lines.len() {
        Err(PatchErrorV::MissingHeader)
    } else if all_ws(lines[i]) {
        header_from(lines, i + 1)
    } else if lines[i].len() > 0 && lines[i][0] == '@' && trim(lines[i].drop_first()).len() > 0 {
        Ok((trim(lines[i].drop_first()), i + 1))
    } else {
        Err(PatchErrorV::MissingHeader)
    }
}

/// The index of the first of `lines[i..]` equal to `tag`.
pub open spec fn heredoc_end(lines: Seq<Seq<char>>, i: int, tag: Seq<char>) -> Option<int>
    decreases lines.len() - i,
{
    if i < 0 || i >= lines.len() {
        None
    } else if lines[i] == tag {
        Some(i)
    } else {
        heredoc_end(lines, i + 1, tag)
    }
}

pub proof fn lemma_heredoc_end(lines: Seq<Seq<char>>, i: int, tag: Seq<char>)
    ensures
        heredoc_end(lines, i, tag) matches Some(j) ==> i <= j < lines.len() && 0 <= j,
    decreases lines.len() - i,
{
    if 0 <= i < lines.len() && lines[i] != tag {
        lemma_heredoc_end(lines, i + 1, tag);
    }
}

/// A heredoc payload starting at `lines[i]` and closed by a line equal to
/// `tag`: its lines joined with `\n`, and the index after the closing line.
pub open spec fn heredoc_from(lines: Seq<Seq<char>>, i: int, tag: Seq<char>) -> Result<
    (Seq<char>, int),
    PatchErrorV,
> {
    match heredoc_end(lines, i, tag) {
        Some(j) => Ok((join_lines(lines.subrange(i, j)), j + 1)),
        None => Err(PatchErrorV::UnterminatedHeredoc),
    }
}

/// The tag of a heredoc opener `<<TAG` (non-empty).
pub open spec fn heredoc_tag(w: Seq<char>) -> Option<Seq<char>> {
    if w.len() > 2 && w[0] == '<' && w[1] == '<' {
        Some(w.drop_first().drop_first())
    } else {
        None
    }
}

/// The input split into lines, as character spans.
struct LineCursor {
    src: Vec<char>,
    spans: Vec<(usize, usize)>,
}

impl LineCursor {
    spec fn lines(&self) -> Seq<Seq<char>> {
        Seq::new(
            self.spans@.len(),
            |k: int| self.src@.subrange(self.spans@[k].0 as int, self.spans@[k].1 as int),
        )
    }

    spec fn wf(&self) -> bool {
        forall|k: int|
            0 <= k < self.spans@.len() ==> (#[trigger] self.spans@[k]).0 <= self.spans@[k].1
                <= self.src@.len()
    }

    fn new(input: &str) -> (c: Self)
        ensures
            c.wf(),
            c.lines() == rust_lines(input@),
    {
        let src = chars_of(input);
        let spans = rust_line_spans(src.as_slice());
        let c = LineCursor { src, spans };
        assert(c.lines() =~= rust_lines(input@));
        c
    }

    fn blank(&self, i: usize) -> (b: bool)
        requires
            self.wf(),
            i < self.spans@.len(),
        ensures
            b == all_ws(self.lines()[i as int]),
    {
        let (a, e) = self.spans[i];
        is_blank(self.src.as_slice(), a, e)
    }

    fn text(&self, i: usize) -> (s: String)
        requires
            self.wf(),
            i < self.spans@.len(),
        ensures
            s@ == self.lines()[i as int],
    {
        let (a, e) = self.spans[i];
        string_of_range(self.src.as_slice(), a, e)
    }

    /// Whether line `i` equals `tag`.
    fn line_is(&self, i: usize, tag: &[char]) -> (b: bool)
        requires
            self.wf(),
            i < self.spans@.len(),
        ensures
            b == (self.lines()[i as int] == tag@),
    {
        let (a, e) = self.spans[i];
        let v = slice_range(self.src.as_slice(), a, e);
        seq_eq(v.as_slice(), tag)
    }
}

fn parse_header(c: &LineCursor) -> (r: Result<(String, usize), PatchError>)
    requires
        c.wf(),
    ensures
        match r {
            Ok((h, n)) => header_from(c.lines(), 0) == Ok::<(Seq<char>, int), PatchErrorV>(
                (h@, n as int),
            ) && n <= c.spans@.len(),
            Err(e) => header_from(c.lines(), 0) == Err::<(Seq<char>, int), PatchErrorV>(e@),
        },
{
    let mut i: usize = 0;
    while i < c.spans.len()
        invariant
            c.wf(),
            i <= c.spans@.len(),
            header_from(c.lines(), 0) == header_from(c.lines(), i as int),
        decreases c.spans.len() - i,
    {
        if c.blank(i) {
            i = i + 1;
            continue;
        }
        let (a, e) = c.spans[i];
        let ghost l = c.lines()[i as int];
        assert(l == c.src@.subrange(a as int, e as int));
        if a < e && c.src[a] == '@' {
            let rest = slice_range(c.src.as_slice(), a + 1, e);
            assert(rest@ == l.drop_first());
            let ws = word_bounds(rest.as_slice());
            match ws {
                Some((p, q)) => {
                    return Ok((string_of_range(rest.as_slice(), p, q), i + 1));
                },
                None => {
                    return Err(PatchError::MissingHeader);
                },
            }
        }
        return Err(PatchError::MissingHeader);
    }
    Err(PatchError::MissingHeader)
}


/// Read a heredoc starting at line `i`, closed by `tag`.
fn read_heredoc(c: &LineCursor, i: usize, tag: &[char]) -> (r: Result<(String, usize), PatchError>)
    requires
        c.wf(),
        i <= c.spans@.len(),
    ensures
        match r {
            Ok((t, n)) => heredoc_from(c.lines(), i as int, tag@) == Ok::<(Seq<char>, int), PatchErrorV>(
                (t@, n as int),
            ) && n <= c.spans@.len(),
            Err(e) => heredoc_from(c.lines(), i as int, tag@) == Err::<(Seq<char>, int), PatchErrorV>(e@),
        },
{
    let mut j = i;
    let mut out = String::new();
    while j < c.spans.len()
        invariant
            c.wf(),
            i <= j <= c.spans@.len(),
            heredoc_end(c.lines(), i as int, tag@) == heredoc_end(c.lines(), j as int, tag@),
            out@ == join_lines(c.lines().subrange(i as int, j as int)),
        decreases c.spans.len() - j,
    {
        if c.line_is(j, tag) {
            return Ok((out, j + 1));
        }
        let (a, e) = c.spans[j];
        let ghost prev = out@;
        if j > i {
            push_char(&mut out, '\n');
        }
        push_range(&mut out, c.src.as_slice(), a, e);
        proof {
            let ls = c.lines().subrange(i as int, j + 1);
            assert(ls.drop_last() =~= c.lines().subrange(i as int, j as int));
            if j > i {
                assert(out@ =~= prev + seq!['\n'] + ls.last());
            } else {
                assert(out@ =~= ls[0]);
            }
        }
        j = j + 1;
    }
    Err(PatchError::UnterminatedHeredoc)
}

// --- Line-hash patches ---------------------------------------------------------------

#[derive(Debug, Clone, Copy, PartialEq, Eq, Structural)]
pub enum Verb {
    Replace,
    Delete,
    InsertAfter,
    InsertBefore,
}

/// One Line-hash op.
#[derive(Debug, PartialEq, Eq)]
pub struct OpSpec {
    pub verb: Verb,
    pub anchor: Anchor,
    pub text: Option<String>,
}

pub struct OpV {
    pub verb: Verb,
    pub anchor: AnchorV,
    pub text: Option<Seq<char>>,
}

impl View for OpSpec {
    type V = OpV;

    open spec fn view(&self) -> OpV {
        OpV {
            verb: self.verb,
            anchor: self.anchor@,
            text: match &self.text {
                Some(t) => Some(t@),
                None => None,
            },
        }
    }
}

/// A parsed Line-hash Patch.
#[derive(Debug, PartialEq, Eq)]
pub struct LinePatch {
    /// The snapshot the patch was built against.
    pub file_hash: String,
    /// The ops, in order.
    pub ops: Vec<OpSpec>,
}

pub struct LinePatchV {
    pub file_hash: Seq<char>,
    pub ops: Seq<OpV>,
}

impl View for LinePatch {
    type V = LinePatchV;

    open spec fn view(&self) -> LinePatchV {
        LinePatchV {
            file_hash: self.file_hash@,
            ops: Seq::new(self.ops@.len(), |k: int| self.ops@[k]@),
        }
    }
}

pub open spec fn line_verb(w: Seq<char>) -> Option<Verb> {
    if w == "replace"@ {
        Some(Verb::Replace)
    } else if w == "delete"@ {
        Some(Verb::Delete)
    } else if w == "insert-after"@ {
        Some(Verb::InsertAfter)
    } else if w == "insert-before"@ {
        Some(Verb::InsertBefore)
    } else {
        None
    }
}

/// The Line-hash ops among `lines[i..]` (blank lines skipped).
pub open spec fn line_ops_from(lines: Seq<Seq<char>>, i: int) -> Result<Seq<OpV>, PatchErrorV>
    decreases lines.len() - i,
{
    if i < 0 || i >= lines.len() {
        Ok(Seq::empty())
    } else if all_ws(lines[i]) {
        line_ops_from(lines, i + 1)
    } else {
        let l = lines[i];
        let w = words(l);
        let bad = PatchErrorV::BadOp(l);
        match (if w.len() > 0 {
            line_verb(w[0])
        } else {
            None
        }) {
            None => Err(bad),
            Some(verb) => if w.len() < 2 {
                Err(bad)
            } else {
                match parse_anchor_spec(w[1]) {
                    Err(e) => Err(e),
                    Ok(anchor) => if verb == Verb::Delete {
                        match line_ops_from(lines, i + 1) {
                            Ok(rest) => Ok(seq![OpV { verb, anchor, text: None }] + rest),
                            Err(e) => Err(e),
                        }
                    } else if w.len() < 3 || heredoc_tag(w[2]) is None {
                        Err(bad)
                    } else {
                        match heredoc_from(lines, i + 1, heredoc_tag(w[2])->0) {
                            Err(e) => Err(e),
                            Ok((text, next)) => {
                                proof {
                                    lemma_heredoc_end(lines, i + 1, heredoc_tag(w[2])->0);
                                }
                                match line_ops_from(lines, next) {
                                    Ok(rest) => Ok(
                                        seq![OpV { verb, anchor, text: Some(text) }] + rest,
                                    ),
                                    Err(e) => Err(e),
                                }
                            },
                        }
                    },
                }
            },
        }
    }
}

/// A Line-hash Patch as the value it parses to.
pub open spec fn parse_line_patch_spec(input: Seq<char>) -> Result<LinePatchV, PatchErrorV> {
    let lines = rust_lines(input);
    match header_from(lines, 0) {
        Err(e) => Err(e),
        Ok((h, i)) => match line_ops_from(lines, i) {
            Ok(ops) => Ok(LinePatchV { file_hash: h, ops }),
            Err(e) => Err(e),
        },
    }
}

pub open spec fn line_patch_result_view(r: Result<LinePatch, PatchError>) -> Result<LinePatchV, PatchErrorV> {
    match r {
        Ok(p) => Ok(p@),
        Err(e) => Err(e@),
    }
}

/// The words of line `i`, and the verb its first word names.
fn line_words(c: &LineCursor, i: usize) -> (r: Vec<(usize, usize)>)
    requires
        c.wf(),
        i < c.spans@.len(),
    ensures
        r@.len() == words(c.lines()[i as int]).len(),
        forall|k: int|
            0 <= k < r@.len() ==> (#[trigger] r@[k]).0 <= r@[k].1 <= c.src@.len() && c.src@.subrange(
                r@[k].0 as int,
                r@[k].1 as int,
            ) == words(c.lines()[i as int])[k],
{
    let (a, e) = c.spans[i];
    word_spans(c.src.as_slice(), a, e)
}

fn word_is(c: &LineCursor, span: (usize, usize), lit: &str) -> (b: bool)
    requires
        span.0 <= span.1 <= c.src@.len(),
    ensures
        b == (c.src@.subrange(span.0 as int, span.1 as int) == lit@),
{
    let v = slice_range(c.src.as_slice(), span.0, span.1);
    let l = chars_of(lit);
    seq_eq(v.as_slice(), l.as_slice())
}

/// The heredoc tag of the word `span`, when it is `<<TAG` with a non-empty
/// tag.
fn tag_of(c: &LineCursor, span: (usize, usize)) -> (r: Option<Vec<char>>)
    requires
        span.0 <= span.1 <= c.src@.len(),
    ensures
        match r {
            Some(t) => heredoc_tag(c.src@.subrange(span.0 as int, span.1 as int)) == Some(t@),
            None => heredoc_tag(c.src@.subrange(span.0 as int, span.1 as int)) is None,
        },
{
    let (a, e) = span;
    if e - a > 2 && c.src[a] == '<' && c.src[a + 1] == '<' {
        let t = slice_range(c.src.as_slice(), a + 2, e);
        assert(t@ == c.src@.subrange(a as int, e as int).drop_first().drop_first());
        Some(t)
    } else {
        None
    }
}

/// Parse a Line-hash Patch.
pub fn parse_line_patch(input: &str) -> (r: Result<LinePatch, PatchError>)
    ensures
        line_patch_result_view(r) == parse_line_patch_spec(input@),
{
    let c = LineCursor::new(input);
    let (file_hash, mut i) = match parse_header(&c) {
        Ok(x) => x,
        Err(e) => return Err(e),
    };
    let ghost lines = c.lines();
    let mut ops: Vec<OpSpec> = Vec::new();
    let ghost mut acc: Seq<OpV> = Seq::empty();
    proof {
        assert(Seq::new(ops@.len(), |k: int| ops@[k]@) =~= acc);
    }
    while i < c.spans.len()
        invariant
            c.wf(),
            lines == c.lines(),
            i <= c.spans@.len(),
            Seq::new(ops@.len(), |k: int| ops@[k]@) == acc,
            parse_line_patch_spec(input@) == match line_ops_from(lines, i as int) {
                Ok(rest) => Ok(LinePatchV { file_hash: file_hash@, ops: acc + rest }),
                Err(e) => Err(e),
            },
            lines == rust_lines(input@),
        decreases c.spans.len() - i,
    {
        if c.blank(i) {
            i = i + 1;
            continue;
        }
        let w = line_words(&c, i);
        let ghost ws = words(lines[i as int]);
        proof {
            reveal_strlit("replace");
            reveal_strlit("delete");
            reveal_strlit("insert-after");
            reveal_strlit("insert-before");
        }
        let verb = if w.len() > 0 {
            if word_is(&c, w[0], "replace") {
                Some(Verb::Replace)
            } else if word_is(&c, w[0], "delete") {
                Some(Verb::Delete)
            } else if word_is(&c, w[0], "insert-after") {
                Some(Verb::InsertAfter)
            } else if word_is(&c, w[0], "insert-before") {
                Some(Verb::InsertBefore)
            } else {
                None
            }
        } else {
            None
        };
        let verb = match verb {
            Some(v) => v,
            None => return Err(PatchError::BadOp(c.text(i))),
        };
        assert(ws[0] == c.src@.subrange(w@[0].0 as int, w@[0].1 as int));
        assert(line_verb(ws[0]) == Some(verb));
        if w.len() < 2 {
            return Err(PatchError::BadOp(c.text(i)));
        }
        let anchor = match parse_anchor(c.src.as_slice(), w[1].0, w[1].1) {
            Ok(a) => a,
            Err(e) => return Err(e),
        };
        assert(ws[1] == c.src@.subrange(w@[1].0 as int, w@[1].1 as int));
        assert(parse_anchor_spec(ws[1]) == Ok::<AnchorV, PatchErrorV>(anchor@));
        if verb == Verb::Delete {
            let ghost op = OpV { verb, anchor: anchor@, text: None };
            assert(!all_ws(lines[i as int]));
            assert(line_ops_from(lines, i as int) == match line_ops_from(lines, i + 1) {
                Ok(rest) => Ok(seq![op] + rest),
                Err(e) => Err::<Seq<OpV>, PatchErrorV>(e),
            });
            ops.push(OpSpec { verb, anchor, text: None });
            proof {
                let a0 = acc;
                acc = acc.push(op);
                assert(Seq::new(ops@.len(), |k: int| ops@[k]@) =~= acc);
                match line_ops_from(lines, i + 1) {
                    Ok(rest) => {
                        assert(acc + rest =~= a0 + (seq![op] + rest));
                    },
                    Err(_) => {},
                }
            }
            i = i + 1;
            continue;
        }
        if w.len() < 3 {
            return Err(PatchError::BadOp(c.text(i)));
        }
        let tag = match tag_of(&c, w[2]) {
            Some(t) => t,
            None => return Err(PatchError::BadOp(c.text(i))),
        };
        let (text, next) = match read_heredoc(&c, i + 1, tag.as_slice()) {
            Ok(x) => x,
            Err(e) => return Err(e),
        };
        let ghost op = OpV { verb, anchor: anchor@, text: Some(text@) };
        assert(!all_ws(lines[i as int]));
        assert(ws[2] == c.src@.subrange(w@[2].0 as int, w@[2].1 as int));
        assert(heredoc_tag(ws[2]) == Some(tag@));
        assert(line_ops_from(lines, i as int) == match line_ops_from(lines, next as int) {
            Ok(rest) => Ok(seq![op] + rest),
            Err(e) => Err::<Seq<OpV>, PatchErrorV>(e),
        });
        ops.push(OpSpec { verb, anchor, text: Some(text) });
        proof {
            lemma_heredoc_end(lines, i + 1, tag@);
            let a0 = acc;
            acc = acc.push(op);
            assert(Seq::new(ops@.len(), |k: int| ops@[k]@) =~= acc);
            match line_ops_from(lines, next as int) {
                Ok(rest) => {
                    assert(acc + rest =~= a0 + (seq![op] + rest));
                },
                Err(_) => {},
            }
        }
        i = next;
    }
    assert(acc + Seq::<OpV>::empty() =~= acc);
    Ok(LinePatch { file_hash, ops })
}


// --- Structural patches ---------------------------------------------------------------

#[derive(Debug, Clone, Copy, PartialEq, Eq, Structural)]
pub enum SVerb {
    Replace,
    Delete,
    Wrap,
    Raise,
    Splice,
    SlurpFwd,
    SlurpBack,
    BarfFwd,
    BarfBack,
    Split,
    Join,
    Rename,
    Format,
}

/// One Structural op.
#[derive(Debug, PartialEq, Eq)]
pub struct SOpSpec {
    pub verb: SVerb,
    pub anchor: Anchor,
    /// The heredoc payload of `replace` / `wrap`.
    pub text: Option<String>,
    /// Child index for `split`.
    pub index: Option<usize>,
    /// The second list for `join`.
    pub anchor2: Option<Anchor>,
    /// `(from, to)` symbols for `rename`.
    pub rename: Option<(String, String)>,
}

pub struct SOpV {
    pub verb: SVerb,
    pub anchor: AnchorV,
    pub text: Option<Seq<char>>,
    pub index: Option<usize>,
    pub anchor2: Option<AnchorV>,
    pub rename: Option<(Seq<char>, Seq<char>)>,
}

impl View for SOpSpec {
    type V = SOpV;

    open spec fn view(&self) -> SOpV {
        SOpV {
            verb: self.verb,
            anchor: self.anchor@,
            text: match &self.text {
                Some(t) => Some(t@),
                None => None,
            },
            index: self.index,
            anchor2: match &self.anchor2 {
                Some(a) => Some(a@),
                None => None,
            },
            rename: match &self.rename {
                Some(r) => Some((r.0@, r.1@)),
                None => None,
            },
        }
    }
}

/// A parsed Structural Patch.
#[derive(Debug, PartialEq, Eq)]
pub struct StructPatch {
    /// The snapshot the patch was built against.
    pub file_hash: String,
    /// The ops, in order.
    pub ops: Vec<SOpSpec>,
}

pub struct StructPatchV {
    pub file_hash: Seq<char>,
    pub ops: Seq<SOpV>,
}

impl View for StructPatch {
    type V = StructPatchV;

    open spec fn view(&self) -> StructPatchV {
        StructPatchV {
            file_hash: self.file_hash@,
            ops: Seq::new(self.ops@.len(), |k: int| self.ops@[k]@),
        }
    }
}

pub open spec fn struct_verb(w: Seq<char>) -> Option<SVerb> {
    if w == "replace"@ {
        Some(SVerb::Replace)
    } else if w == "delete"@ {
        Some(SVerb::Delete)
    } else if w == "wrap"@ {
        Some(SVerb::Wrap)
    } else if w == "raise"@ {
        Some(SVerb::Raise)
    } else if w == "splice"@ {
        Some(SVerb::Splice)
    } else if w == "slurp-fwd"@ {
        Some(SVerb::SlurpFwd)
    } else if w == "slurp-back"@ {
        Some(SVerb::SlurpBack)
    } else if w == "barf-fwd"@ {
        Some(SVerb::BarfFwd)
    } else if w == "barf-back"@ {
        Some(SVerb::BarfBack)
    } else if w == "split"@ {
        Some(SVerb::Split)
    } else if w == "join"@ {
        Some(SVerb::Join)
    } else if w == "rename"@ {
        Some(SVerb::Rename)
    } else if w == "format"@ {
        Some(SVerb::Format)
    } else {
        None
    }
}

/// `@N`, the child index of `split`.
pub open spec fn split_index(w: Seq<char>) -> Option<usize> {
    if w.len() > 0 && w[0] == '@' {
        parse_usize_spec(w.drop_first())
    } else {
        None
    }
}

pub open spec fn plain_op(verb: SVerb, anchor: AnchorV) -> SOpV {
    SOpV { verb, anchor, text: None, index: None, anchor2: None, rename: None }
}

/// The Structural op on the non-blank line `lines[i]`, and the index of the
/// line after it (after its heredoc, for `replace` / `wrap`).
pub open spec fn struct_op_at(lines: Seq<Seq<char>>, i: int) -> Result<(SOpV, int), PatchErrorV> {
    let l = lines[i];
    let w = words(l);
    let bad = PatchErrorV::BadOp(l);
    match (if w.len() > 0 {
        struct_verb(w[0])
    } else {
        None
    }) {
        None => Err(bad),
        Some(verb) => if w.len() < 2 {
            Err(bad)
        } else {
            match parse_anchor_spec(w[1]) {
                Err(e) => Err(e),
                Ok(anchor) => match verb {
                    SVerb::Replace | SVerb::Wrap => if w.len() < 3 || heredoc_tag(w[2]) is None {
                        Err(bad)
                    } else {
                        match heredoc_from(lines, i + 1, heredoc_tag(w[2])->0) {
                            Err(e) => Err(e),
                            Ok((text, next)) => Ok(
                                (SOpV { text: Some(text), ..plain_op(verb, anchor) }, next),
                            ),
                        }
                    },
                    SVerb::Split => if w.len() < 3 || split_index(w[2]) is None {
                        Err(bad)
                    } else {
                        Ok((SOpV { index: split_index(w[2]), ..plain_op(verb, anchor) }, i + 1))
                    },
                    SVerb::Join => if w.len() < 3 {
                        Err(bad)
                    } else {
                        match parse_anchor_spec(w[2]) {
                            Err(e) => Err(e),
                            Ok(a2) => Ok(
                                (SOpV { anchor2: Some(a2), ..plain_op(verb, anchor) }, i + 1),
                            ),
                        }
                    },
                    SVerb::Rename => if w.len() < 4 {
                        Err(bad)
                    } else {
                        Ok((SOpV { rename: Some((w[2], w[3])), ..plain_op(verb, anchor) }, i + 1))
                    },
                    _ => Ok((plain_op(verb, anchor), i + 1)),
                },
            }
        },
    }
}

pub proof fn lemma_struct_op_next(lines: Seq<Seq<char>>, i: int)
    requires
        0 <= i < lines.len(),
    ensures
        struct_op_at(lines, i) matches Ok((_, next)) ==> i < next <= lines.len(),
{
    let w = words(lines[i]);
    if w.len() > 2 && heredoc_tag(w[2]) is Some {
        lemma_heredoc_end(lines, i + 1, heredoc_tag(w[2])->0);
    }
}

/// The Structural ops among `lines[i..]` (blank lines skipped).
pub open spec fn struct_ops_from(lines: Seq<Seq<char>>, i: int) -> Result<Seq<SOpV>, PatchErrorV>
    decreases lines.len() - i,
{
    if i < 0 || i >= lines.len() {
        Ok(Seq::empty())
    } else if all_ws(lines[i]) {
        struct_ops_from(lines, i + 1)
    } else {
        match struct_op_at(lines, i) {
            Err(e) => Err(e),
            Ok((op, next)) => {
                proof {
                    lemma_struct_op_next(lines, i);
                }
                match struct_ops_from(lines, next) {
                    Ok(rest) => Ok(seq![op] + rest),
                    Err(e) => Err(e),
                }
            },
        }
    }
}

/// A Structural Patch as the value it parses to.
pub open spec fn parse_struct_patch_spec(input: Seq<char>) -> Result<StructPatchV, PatchErrorV> {
    let lines = rust_lines(input);
    match header_from(lines, 0) {
        Err(e) => Err(e),
        Ok((h, i)) => match struct_ops_from(lines, i) {
            Ok(ops) => Ok(StructPatchV { file_hash: h, ops }),
            Err(e) => Err(e),
        },
    }
}

pub open spec fn struct_patch_result_view(r: Result<StructPatch, PatchError>) -> Result<
    StructPatchV,
    PatchErrorV,
> {
    match r {
        Ok(p) => Ok(p@),
        Err(e) => Err(e@),
    }
}

fn struct_verb_of(c: &LineCursor, span: (usize, usize)) -> (r: Option<SVerb>)
    requires
        span.0 <= span.1 <= c.src@.len(),
    ensures
        r == struct_verb(c.src@.subrange(span.0 as int, span.1 as int)),
{
    if word_is(c, span, "replace") {
        Some(SVerb::Replace)
    } else if word_is(c, span, "delete") {
        Some(SVerb::Delete)
    } else if word_is(c, span, "wrap") {
        Some(SVerb::Wrap)
    } else if word_is(c, span, "raise") {
        Some(SVerb::Raise)
    } else if word_is(c, span, "splice") {
        Some(SVerb::Splice)
    } else if word_is(c, span, "slurp-fwd") {
        Some(SVerb::SlurpFwd)
    } else if word_is(c, span, "slurp-back") {
        Some(SVerb::SlurpBack)
    } else if word_is(c, span, "barf-fwd") {
        Some(SVerb::BarfFwd)
    } else if word_is(c, span, "barf-back") {
        Some(SVerb::BarfBack)
    } else if word_is(c, span, "split") {
        Some(SVerb::Split)
    } else if word_is(c, span, "join") {
        Some(SVerb::Join)
    } else if word_is(c, span, "rename") {
        Some(SVerb::Rename)
    } else if word_is(c, span, "format") {
        Some(SVerb::Format)
    } else {
        None
    }
}

fn split_index_of(c: &LineCursor, span: (usize, usize)) -> (r: Option<usize>)
    requires
        span.0 <= span.1 <= c.src@.len(),
    ensures
        r == split_index(c.src@.subrange(span.0 as int, span.1 as int)),
{
    let (a, e) = span;
    if a < e && c.src[a] == '@' {
        assert(c.src@.subrange(a + 1, e as int) == c.src@.subrange(a as int, e as int).drop_first());
        parse_usize(c.src.as_slice(), a + 1, e)
    } else {
        None
    }
}

fn parse_struct_op(c: &LineCursor, i: usize) -> (r: Result<(SOpSpec, usize), PatchError>)
    requires
        c.wf(),
        i < c.spans@.len(),
    ensures
        match r {
            Ok((op, n)) => struct_op_at(c.lines(), i as int) == Ok::<(SOpV, int), PatchErrorV>(
                (op@, n as int),
            ),
            Err(e) => struct_op_at(c.lines(), i as int) == Err::<(SOpV, int), PatchErrorV>(e@),
        },
{
    let ghost lines = c.lines();
    let n_lines = c.spans.len();
    assert(i + 1 <= n_lines);
    let w = line_words(c, i);
    let ghost ws = words(lines[i as int]);
    proof {
        reveal_strlit("replace");
        reveal_strlit("delete");
        reveal_strlit("wrap");
        reveal_strlit("raise");
        reveal_strlit("splice");
        reveal_strlit("slurp-fwd");
        reveal_strlit("slurp-back");
        reveal_strlit("barf-fwd");
        reveal_strlit("barf-back");
        reveal_strlit("split");
        reveal_strlit("join");
        reveal_strlit("rename");
        reveal_strlit("format");
    }
    if w.len() == 0 {
        return Err(PatchError::BadOp(c.text(i)));
    }
    assert(ws[0] == c.src@.subrange(w@[0].0 as int, w@[0].1 as int));
    let verb = match struct_verb_of(c, w[0]) {
        Some(v) => v,
        None => return Err(PatchError::BadOp(c.text(i))),
    };
    if w.len() < 2 {
        return Err(PatchError::BadOp(c.text(i)));
    }
    assert(ws[1] == c.src@.subrange(w@[1].0 as int, w@[1].1 as int));
    let anchor = match parse_anchor(c.src.as_slice(), w[1].0, w[1].1) {
        Ok(a) => a,
        Err(e) => return Err(e),
    };
    if w.len() >= 3 {
        assert(ws[2] == c.src@.subrange(w@[2].0 as int, w@[2].1 as int));
    }
    if w.len() >= 4 {
        assert(ws[3] == c.src@.subrange(w@[3].0 as int, w@[3].1 as int));
    }
    match verb {
        SVerb::Replace | SVerb::Wrap => {
            if w.len() < 3 {
                return Err(PatchError::BadOp(c.text(i)));
            }
            let tag = match tag_of(c, w[2]) {
                Some(t) => t,
                None => return Err(PatchError::BadOp(c.text(i))),
            };
            let (text, next) = match read_heredoc(c, i + 1, tag.as_slice()) {
                Ok(x) => x,
                Err(e) => return Err(e),
            };
            Ok(
                (
                    SOpSpec {
                        verb,
                        anchor,
                        text: Some(text),
                        index: None,
                        anchor2: None,
                        rename: None,
                    },
                    next,
                ),
            )
        },
        SVerb::Split => {
            if w.len() < 3 {
                return Err(PatchError::BadOp(c.text(i)));
            }
            match split_index_of(c, w[2]) {
                Some(n) => Ok(
                    (
                        SOpSpec { verb, anchor, text: None, index: Some(n), anchor2: None, rename: None },
                        i + 1,
                    ),
                ),
                None => Err(PatchError::BadOp(c.text(i))),
            }
        },
        SVerb::Join => {
            if w.len() < 3 {
                return Err(PatchError::BadOp(c.text(i)));
            }
            match parse_anchor(c.src.as_slice(), w[2].0, w[2].1) {
                Ok(a2) => Ok(
                    (
                        SOpSpec { verb, anchor, text: None, index: None, anchor2: Some(a2), rename: None },
                        i + 1,
                    ),
                ),
                Err(e) => Err(e),
            }
        },
        SVerb::Rename => {
            if w.len() < 4 {
                return Err(PatchError::BadOp(c.text(i)));
            }
            let from = string_of_range(c.src.as_slice(), w[2].0, w[2].1);
            let to = string_of_range(c.src.as_slice(), w[3].0, w[3].1);
            Ok(
                (
                    SOpSpec {
                        verb,
                        anchor,
                        text: None,
                        index: None,
                        anchor2: None,
                        rename: Some((from, to)),
                    },
                    i + 1,
                ),
            )
        },
        _ => Ok(
            (
                SOpSpec { verb, anchor, text: None, index: None, anchor2: None, rename: None },
                i + 1,
            ),
        ),
    }
}

/// Parse a Structural Patch.
pub fn parse_struct_patch(input: &str) -> (r: Result<StructPatch, PatchError>)
    ensures
        struct_patch_result_view(r) == parse_struct_patch_spec(input@),
{
    let c = LineCursor::new(input);
    let (file_hash, mut i) = match parse_header(&c) {
        Ok(x) => x,
        Err(e) => return Err(e),
    };
    let ghost lines = c.lines();
    let mut ops: Vec<SOpSpec> = Vec::new();
    let ghost mut acc: Seq<SOpV> = Seq::empty();
    proof {
        assert(Seq::new(ops@.len(), |k: int| ops@[k]@) =~= acc);
    }
    while i < c.spans.len()
        invariant
            c.wf(),
            lines == c.lines(),
            i <= c.spans@.len(),
            Seq::new(ops@.len(), |k: int| ops@[k]@) == acc,
            parse_struct_patch_spec(input@) == match struct_ops_from(lines, i as int) {
                Ok(rest) => Ok(StructPatchV { file_hash: file_hash@, ops: acc + rest }),
                Err(e) => Err(e),
            },
            lines == rust_lines(input@),
        decreases c.spans.len() - i,
    {
        if c.blank(i) {
            i = i + 1;
            continue;
        }
        let (op, next) = match parse_struct_op(&c, i) {
            Ok(x) => x,
            Err(e) => return Err(e),
        };
        proof {
            lemma_struct_op_next(lines, i as int);
        }
        let ghost opv = op@;
        ops.push(op);
        proof {
            let a0 = acc;
            acc = acc.push(opv);
            assert(Seq::new(ops@.len(), |k: int| ops@[k]@) =~= acc);
            match struct_ops_from(lines, next as int) {
                Ok(rest) => {
                    assert(acc + rest =~= a0 + (seq![opv] + rest));
                },
                Err(_) => {},
            }
        }
        i = next;
    }
    assert(acc + Seq::<SOpV>::empty() =~= acc);
    Ok(StructPatch { file_hash, ops })
}

// --- Applying a Line-hash patch ----------------------------------------------------------

/// Why a patch could not be applied.
#[derive(Debug)]
pub enum ApplyError {
    /// The file drifted from the patch's snapshot.
    Drift { expected: String, actual: String },
    /// An op referenced a line outside the file.
    LineOutOfRange(u32),
    /// An op's hash did not match the current line content.
    AnchorMismatch { line: u32, expected: String, actual: String },
    /// No node matched a Structural anchor.
    AnchorNotFound { line: u32, hash: String },
    /// An op cannot apply to the resolved node.
    NotApplicable(String),
    /// The edits could not be spliced.
    Splice(SpliceError),
    /// The safe write was refused.
    Write(WriteError),
    /// A filesystem error.
    Io(std::io::Error),
}

/// The result of a successful patch.
#[derive(Debug)]
pub struct Outcome {
    /// The new file hash, which guards the next batch.
    pub new_file_hash: String,
    /// Definitions no longer recognized after the edit. The edit still
    /// succeeded.
    pub warnings: Vec<String>,
}

/// The content span of 1-based line `n` of `b`, its terminator (`\n`, or
/// `\r\n`) excluded; the last line runs to the end.
pub open spec fn content_span(b: Seq<u8>, n: int) -> Option<(int, int)> {
    let st = line_starts(b);
    if n < 1 || n > st.len() {
        None
    } else if n < st.len() {
        let nl = st[n] - 1;
        if nl > st[n - 1] && b[nl - 1] == 13 {
            Some((st[n - 1], nl - 1))
        } else {
            Some((st[n - 1], nl))
        }
    } else {
        Some((st[n - 1], b.len() as int))
    }
}

/// The full span of line `n`: its start to the next line's (or the end).
pub open spec fn full_span(b: Seq<u8>, n: int) -> (int, int) {
    let st = line_starts(b);
    let start = if 1 <= n <= st.len() {
        st[n - 1]
    } else {
        b.len() as int
    };
    let end = if 1 <= n + 1 <= st.len() {
        st[n]
    } else {
        b.len() as int
    };
    (start, end)
}

/// What checking the ops from the `k`-th on finds: the first op whose line
/// is outside the file, or whose hash does not match the line's content.
pub enum OpFault {
    LineOutOfRange(u32),
    AnchorMismatch(u32, Seq<char>, Seq<char>),
}

pub open spec fn check_ops(b: Seq<u8>, ops: Seq<OpV>, k: int) -> Option<OpFault>
    decreases ops.len() - k,
{
    if k < 0 || k >= ops.len() {
        None
    } else {
        let line = ops[k].anchor.line;
        match content_span(b, line as int) {
            None => Some(OpFault::LineOutOfRange(line)),
            Some(r) => {
                let found = anchor_hash_spec(b.subrange(r.0, r.1));
                if found != ops[k].anchor.hash {
                    Some(OpFault::AnchorMismatch(line, ops[k].anchor.hash, found))
                } else {
                    check_ops(b, ops, k + 1)
                }
            },
        }
    }
}

/// The op's text, or empty.
pub open spec fn text_or_empty(t: Option<Seq<char>>) -> Seq<char> {
    match t {
        Some(t) => t,
        None => Seq::empty(),
    }
}

/// Whether `e` is the byte edit of a checked op: a replace rewrites the
/// line's content (keeping its terminator), a delete removes the whole line,
/// an insert adds the text and a `\n` after or before the line.
pub open spec fn op_edit_matches(b: Seq<u8>, op: OpV, e: Edit) -> bool {
    let full = full_span(b, op.anchor.line as int);
    match content_span(b, op.anchor.line as int) {
        None => false,
        Some(c) => match op.verb {
            Verb::Replace => e.range.start == c.0 && e.range.end == c.1 && e.text@ == text_or_empty(op.text),
            Verb::Delete => e.range.start == full.0 && e.range.end == full.1 && e.text@ == Seq::<char>::empty(),
            Verb::InsertAfter => e.range.start == full.1 && e.range.end == full.1 && e.text@ == text_or_empty(op.text).push('\n'),
            Verb::InsertBefore => e.range.start == full.0 && e.range.end == full.0 && e.text@ == text_or_empty(op.text).push('\n'),
        },
    }
}

/// Whether `es` are the byte edits of `ops`, one for one.
pub open spec fn patch_edits(b: Seq<u8>, ops: Seq<OpV>, es: Seq<Edit>) -> bool {
    &&& es.len() == ops.len()
    &&& forall|k: int| 0 <= k < es.len() ==> op_edit_matches(b, #[trigger] ops[k], es[k])
}

/// Whether `r` is what applying `patch` to the file content `src` gives: a
/// drifted file is refused, then the first bad op, then the splice of the
/// ops' byte edits.
pub open spec fn line_patch_applied(src: Seq<char>, patch: LinePatchV, r: Result<String, ApplyError>) -> bool {
    let b = encode_utf8(src);
    let actual = file_hash_spec(b);
    if actual != patch.file_hash {
        r matches Err(ApplyError::Drift { expected: e, actual: a }) && e@ == patch.file_hash && a@ == actual
    } else {
        match check_ops(b, patch.ops, 0) {
            Some(OpFault::LineOutOfRange(l)) => r matches Err(ApplyError::LineOutOfRange(l2)) && l2 == l,
            Some(OpFault::AnchorMismatch(l, ex, ac)) => r matches Err(
                ApplyError::AnchorMismatch { line: l2, expected: e, actual: a },
            ) && l2 == l && e@ == ex && a@ == ac,
            None => exists|es: Seq<Edit>|
                #[trigger] patch_edits(b, patch.ops, es) && match r {
                    Ok(s) => splice_spec(b, es) == Ok::<Seq<u8>, SpliceError>(encode_utf8(s@)),
                    Err(ApplyError::Splice(x)) => splice_spec(b, es) == Err::<Seq<u8>, SpliceError>(x),
                    _ => false,
                },
        }
    }
}

/// The content span of line `n`, from the line-start table.
fn content_span_exec(b: &[u8], starts: &Vec<usize>, n: u32) -> (r: Option<(usize, usize)>)
    requires
        starts@.len() == line_starts(b@).len(),
        forall|k: int| 0 <= k < starts@.len() ==> starts@[k] == line_starts(b@)[k],
        forall|k: int| 0 <= k < starts@.len() ==> starts@[k] <= b@.len(),
        forall|k: int| 1 <= k < starts@.len() ==> 1 <= #[trigger] starts@[k] && starts@[k - 1] <= starts@[k] - 1,
    ensures
        match r {
            Some((s, e)) => content_span(b@, n as int) == Some((s as int, e as int)) && s <= e <= b@.len(),
            None => content_span(b@, n as int) is None,
        },
{
    let k = n as usize;
    if k < 1 || k > starts.len() {
        None
    } else if k < starts.len() {
        let nl = starts[k] - 1;
        if nl > starts[k - 1] && b[nl - 1] == 13 {
            Some((starts[k - 1], nl - 1))
        } else {
            Some((starts[k - 1], nl))
        }
    } else {
        Some((starts[k - 1], b.len()))
    }
}

/// The full span of line `n`.
fn full_span_exec(b: &[u8], starts: &Vec<usize>, n: u32) -> (r: (usize, usize))
    requires
        starts@.len() == line_starts(b@).len(),
        forall|k: int| 0 <= k < starts@.len() ==> starts@[k] == line_starts(b@)[k],
    ensures
        (r.0 as int, r.1 as int) == full_span(b@, n as int),
{
    let k = n as usize;
    let start = if 1 <= k && k <= starts.len() {
        starts[k - 1]
    } else {
        b.len()
    };
    let end = if k < starts.len() {
        starts[k]
    } else {
        b.len()
    };
    (start, end)
}

/// `t`, or empty, with a `\n` after it when `nl`.
fn op_text(t: &Option<String>, nl: bool) -> (s: String)
    ensures
        s@ == (if nl {
            text_or_empty(match t {
                Some(t) => Some(t@),
                None => None,
            }).push('\n')
        } else {
            text_or_empty(match t {
                Some(t) => Some(t@),
                None => None,
            })
        }),
{
    let mut s = match t {
        Some(t) => t.clone(),
        None => String::new(),
    };
    if nl {
        push_char(&mut s, '\n');
    }
    s
}

/// The new content of `patch` applied to the file content `source`: the
/// decision part of applying a Line-hash patch, before the safe write.
pub fn plan_line_patch(source: &str, patch: &LinePatch) -> (r: Result<String, ApplyError>)
    ensures
        line_patch_applied(source@, patch@, r),
{
    let b = source.as_bytes();
    let actual = file_hash(b);
    let ac = chars_of(actual.as_str());
    let ec = chars_of(patch.file_hash.as_str());
    if !seq_eq(ac.as_slice(), ec.as_slice()) {
        return Err(ApplyError::Drift { expected: patch.file_hash.clone(), actual });
    }
    let starts = crate::edit::line_start_table(b);
    proof {
        crate::edit::lemma_line_starts_increase(b@);
    }
    let ghost ops = patch@.ops;
    let mut edits: Vec<Edit> = Vec::new();
    let mut k: usize = 0;
    while k < patch.ops.len()
        invariant
            b@ == encode_utf8(source@),
            file_hash_spec(b@) == patch@.file_hash,
            ops == patch@.ops,
            ops.len() == patch.ops@.len(),
            starts@.len() == line_starts(b@).len(),
            forall|q: int| 0 <= q < starts@.len() ==> starts@[q] == line_starts(b@)[q],
            forall|q: int| 0 <= q < starts@.len() ==> starts@[q] <= b@.len(),
            forall|q: int| 1 <= q < starts@.len() ==> 1 <= #[trigger] starts@[q] && starts@[q - 1] <= starts@[q] - 1,
            k <= ops.len(),
            check_ops(b@, ops, 0) == check_ops(b@, ops, k as int),
            edits@.len() == k,
            forall|q: int| 0 <= q < k ==> op_edit_matches(b@, #[trigger] ops[q], edits@[q]),
        decreases patch.ops.len() - k,
    {
        let op = &patch.ops[k];
        let line = op.anchor.line;
        assert(ops[k as int] == op@);
        let (cs, ce) = match content_span_exec(b, &starts, line) {
            Some(r) => r,
            None => return Err(ApplyError::LineOutOfRange(line)),
        };
        let content = crate::text::bytes_range(b, cs, ce);
        let found = anchor_hash(content.as_slice());
        let fc = chars_of(found.as_str());
        let hc = chars_of(op.anchor.hash.as_str());
        if !seq_eq(fc.as_slice(), hc.as_slice()) {
            return Err(ApplyError::AnchorMismatch { line, expected: op.anchor.hash.clone(), actual: found });
        }
        let full = full_span_exec(b, &starts, line);
        let e = match op.verb {
            Verb::Replace => Edit { range: cs..ce, text: op_text(&op.text, false) },
            Verb::Delete => Edit { range: full.0..full.1, text: String::new() },
            Verb::InsertAfter => Edit { range: full.1..full.1, text: op_text(&op.text, true) },
            Verb::InsertBefore => Edit { range: full.0..full.0, text: op_text(&op.text, true) },
        };
        let ghost prev = edits@;
        edits.push(e);
        proof {
            assert forall|q: int| 0 <= q < k + 1 implies op_edit_matches(b@, #[trigger] ops[q], edits@[q]) by {
                if q < k {
                    assert(edits@[q] == prev[q]);
                }
            }
        }
        k = k + 1;
    }
    let ghost es = edits@;
    assert(check_ops(b@, ops, k as int) is None);
    assert(patch_edits(b@, ops, es));
    match splice(source, edits) {
        Ok(s) => Ok(s),
        Err(x) => Err(ApplyError::Splice(x)),
    }
}


// --- Applying a Structural patch ---------------------------------------------------------

/// Why a Structural op could not be built.
pub enum StructFault {
    /// No node matched the anchor `line:hash`.
    NotFound(u32, Seq<char>),
    /// The op cannot apply to the node it names.
    NotApplicable(Seq<char>),
}

/// The sibling `offset` places from the located node (`+1` next, `-1`
/// previous), if it has a parent list with such an element.
pub open spec fn sibling_spec(loc: LocV, offset: int) -> Option<Node> {
    match loc.parent {
        Some(p) => if p.shape == Shape::List && 0 <= loc.index + offset < p.items@.len() {
            Some(p.items@[loc.index + offset])
        } else {
            None
        },
        None => None,
    }
}

pub open spec fn or_na(r: Option<Seq<EditT>>, msg: Seq<char>) -> Result<Seq<EditT>, StructFault> {
    match r {
        Some(ts) => Ok(ts),
        None => Err(StructFault::NotApplicable(msg)),
    }
}

/// The edits of `op` on the node `loc` names in `src` read as `forms`.
pub open spec fn op_edits_spec(src: Seq<char>, forms: Seq<Node>, op: SOpV, loc: LocV) -> Result<Seq<EditT>, StructFault> {
    let n = loc.node;
    match op.verb {
        SVerb::Replace => Ok(seq![et(src, n.start as int, n.end as int, text_or_empty(op.text))]),
        SVerb::Delete => Ok(seq![et(src, n.start as int, n.end as int, Seq::empty())]),
        SVerb::Wrap => Ok(wrap_spec(src, n, text_or_empty(op.text))),
        SVerb::Raise => match loc.parent {
            Some(p) => Ok(raise_spec(src, p, n)),
            None => Err(StructFault::NotApplicable("raise: node has no parent"@)),
        },
        SVerb::Splice => or_na(splice_list_spec(src, n), "splice: node is not a list"@),
        SVerb::SlurpFwd => match sibling_spec(loc, 1) {
            Some(x) => or_na(slurp_forward_spec(src, n, x), "slurp-fwd: node is not a list"@),
            None => Err(StructFault::NotApplicable("slurp-fwd: no next sibling"@)),
        },
        SVerb::SlurpBack => match sibling_spec(loc, -1) {
            Some(x) => or_na(slurp_backward_spec(src, n, x), "slurp-back: node is not a list"@),
            None => Err(StructFault::NotApplicable("slurp-back: no previous sibling"@)),
        },
        SVerb::BarfFwd => or_na(barf_forward_spec(src, n), "barf-fwd: empty or non-list"@),
        SVerb::BarfBack => or_na(barf_backward_spec(src, n), "barf-back: empty or non-list"@),
        SVerb::Split => match op.index {
            Some(i) => or_na(split_spec(src, n, i as int), "split: bad index or non-list"@),
            None => Err(StructFault::NotApplicable("split: missing index"@)),
        },
        SVerb::Join => match op.anchor2 {
            Some(a2) => match resolve_spec(src, forms, a2) {
                Some(l2) => or_na(join_spec(src, n, l2.node), "join: both must be lists"@),
                None => Err(StructFault::NotFound(a2.line, a2.hash)),
            },
            None => Err(StructFault::NotApplicable("join: missing second anchor"@)),
        },
        SVerb::Rename => match op.rename {
            Some((from, to)) => Ok(rename_in(src, from, to, n)),
            None => Err(StructFault::NotApplicable("rename: missing from/to"@)),
        },
        SVerb::Format => Ok(seq![et(src, n.start as int, n.end as int, node_text(src, n))]),
    }
}

/// The edits of `ops[..k]`, each flagged by whether a `format` op made it,
/// or the first op (in order) whose anchor names no node or which cannot
/// apply.
pub open spec fn struct_edits_upto(src: Seq<char>, forms: Seq<Node>, ops: Seq<SOpV>, k: int) -> Result<(Seq<EditT>, Seq<bool>), StructFault>
    decreases k,
{
    if k <= 0 {
        Ok((Seq::empty(), Seq::empty()))
    } else {
        match struct_edits_upto(src, forms, ops, k - 1) {
            Err(f) => Err(f),
            Ok((ts, fl)) => match resolve_spec(src, forms, ops[k - 1].anchor) {
                None => Err(StructFault::NotFound(ops[k - 1].anchor.line, ops[k - 1].anchor.hash)),
                Some(loc) => match op_edits_spec(src, forms, ops[k - 1], loc) {
                    Err(f) => Err(f),
                    Ok(more) => Ok(
                        (
                            ts + more,
                            fl + Seq::new(more.len(), |i: int| ops[k - 1].verb == SVerb::Format),
                        ),
                    ),
                },
            },
        }
    }
}

/// Where the texts of the edits among `es[..k]` flagged `want` land.
pub open spec fn picked(es: Seq<Edit>, fl: Seq<bool>, want: bool, k: int) -> Seq<(int, int)>
    decreases k,
{
    if k <= 0 {
        Seq::empty()
    } else {
        picked(es, fl, want, k - 1) + if fl[k - 1] == want {
            seq![(clamp_usize(landed(es, k - 1).0), clamp_usize(landed(es, k - 1).1))]
        } else {
            Seq::empty()
        }
    }
}

pub open spec fn ranges_are(rs: Seq<std::ops::Range<usize>>, ps: Seq<(int, int)>) -> bool {
    &&& rs.len() == ps.len()
    &&& forall|k: int| 0 <= k < rs.len() ==> (#[trigger] rs[k].start as int, rs[k].end as int) == ps[k]
}

/// A Structural patch's new content, before any reindent, with the byte
/// ranges its edits' texts occupy in it: those of `format` ops in `exact`,
/// the others in `expand`.
pub struct StructPlan {
    pub content: String,
    pub expand: Vec<std::ops::Range<usize>>,
    pub exact: Vec<std::ops::Range<usize>>,
}

/// What applying the ops to `src` read as `forms` gives.
pub open spec fn struct_plan_outcome(src: Seq<char>, forms: Seq<Node>, ops: Seq<SOpV>, r: Result<StructPlan, ApplyError>) -> bool {
    let b = encode_utf8(src);
    match struct_edits_upto(src, forms, ops, ops.len() as int) {
        Err(StructFault::NotFound(l, h)) => r matches Err(ApplyError::AnchorNotFound { line, hash })
            && line == l && hash@ == h,
        Err(StructFault::NotApplicable(m)) => r matches Err(ApplyError::NotApplicable(s)) && s@ == m,
        Ok((ts, fl)) => exists|es: Seq<Edit>|
            #[trigger] edits_are(es, ts) && match r {
                Ok(p) => splice_spec(b, es) == Ok::<Seq<u8>, SpliceError>(encode_utf8(p.content@))
                    && ranges_are(p.expand@, picked(es, fl, false, es.len() as int)) && ranges_are(
                    p.exact@,
                    picked(es, fl, true, es.len() as int),
                ),
                Err(ApplyError::Splice(x)) => splice_spec(b, es) == Err::<Seq<u8>, SpliceError>(x),
                _ => false,
            },
    }
}

/// Whether `r` is what planning `patch` on the file content `src` gives: a
/// drifted file is refused; otherwise, for the tree the reader builds, the
/// first op whose anchor names no node or which cannot apply, or the
/// splice of all the ops' edits.
pub open spec fn struct_patch_planned(
    src: Seq<char>,
    patch: StructPatchV,
    dialect: Dialect,
    r: Result<StructPlan, ApplyError>,
) -> bool {
    let b = encode_utf8(src);
    let actual = file_hash_spec(b);
    if actual != patch.file_hash {
        r matches Err(ApplyError::Drift { expected: e, actual: a }) && e@ == patch.file_hash && a@ == actual
    } else {
        exists|forms: Seq<Node>|
            reads_as(src, dialect_name_spec(dialect), false, forms) && #[trigger] struct_plan_outcome(
                src,
                forms,
                patch.ops,
                r,
            )
    }
}

proof fn lemma_upto_err(src: Seq<char>, forms: Seq<Node>, ops: Seq<SOpV>, k: int, n: int)
    requires
        0 <= k <= n,
        struct_edits_upto(src, forms, ops, k) is Err,
    ensures
        struct_edits_upto(src, forms, ops, n) == struct_edits_upto(src, forms, ops, k),
    decreases n - k,
{
    if n > k {
        lemma_upto_err(src, forms, ops, k, n - 1);
    }
}

fn not_applicable(msg: &str) -> (e: ApplyError)
    ensures
        e matches ApplyError::NotApplicable(s) && s@ == msg@,
{
    ApplyError::NotApplicable(String::from_str(msg))
}

fn or_not_applicable(r: Option<Vec<Edit>>, msg: &str) -> (out: Result<Vec<Edit>, ApplyError>)
    ensures
        match r {
            Some(es) => out == Ok::<Vec<Edit>, ApplyError>(es),
            None => out matches Err(ApplyError::NotApplicable(s)) && s@ == msg@,
        },
{
    match r {
        Some(es) => Ok(es),
        None => Err(not_applicable(msg)),
    }
}

fn sibling<'a>(loc: &Located<'a>, forward: bool) -> (r: Option<&'a Node>)
    ensures
        match r {
            Some(x) => sibling_spec(loc@, if forward { 1 } else { -1 }) == Some(*x),
            None => sibling_spec(loc@, if forward { 1 } else { -1 }) is None,
        },
{
    match loc.parent {
        Some(p) => {
            let list = match p.shape {
                Shape::List => true,
                _ => false,
            };
            if !list {
                return None;
            }
            if forward {
                if loc.index < p.items.len() && loc.index + 1 < p.items.len() {
                    Some(&p.items[loc.index + 1])
                } else {
                    None
                }
            } else {
                if loc.index >= 1 && loc.index - 1 < p.items.len() {
                    Some(&p.items[loc.index - 1])
                } else {
                    None
                }
            }
        },
        None => None,
    }
}

fn build_struct_edits<'a>(
    cs: &[char],
    nl: &Vec<usize>,
    bt: &Vec<usize>,
    data: &'a [Node],
    op: &SOpSpec,
    loc: Located<'a>,
) -> (r: Result<Vec<Edit>, ApplyError>)
    requires
        byte_table_of(cs@, bt@),
        nl@.len() == cs@.len() + 1,
        forall|k: int| 0 <= k <= cs@.len() ==> nl@[k] == nl_count(cs@, k),
    ensures
        match op_edits_spec(cs@, data@, op@, loc@) {
            Ok(ts) => r matches Ok(es) && edits_are(es@, ts),
            Err(StructFault::NotFound(l, h)) => r matches Err(ApplyError::AnchorNotFound { line, hash })
                && line == l && hash@ == h,
            Err(StructFault::NotApplicable(m)) => r matches Err(ApplyError::NotApplicable(s)) && s@
                == m,
        },
{
    let n = loc.node;
    let ghost want = op_edits_spec(cs@, data@, op@, loc@);
    match op.verb {
        SVerb::Replace => {
            let t = match &op.text {
                Some(t) => t.clone(),
                None => String::new(),
            };
            let mut es: Vec<Edit> = Vec::new();
            es.push(crate::structural::edit_at(cs, bt, n.start, n.end, t));
            Ok(es)
        },
        SVerb::Delete => {
            let mut es: Vec<Edit> = Vec::new();
            es.push(crate::structural::edit_at(cs, bt, n.start, n.end, String::new()));
            Ok(es)
        },
        SVerb::Wrap => {
            proof {
                reveal_strlit("");
            }
            let prefix: &str = match &op.text {
                Some(t) => t.as_str(),
                None => "",
            };
            Ok(wrap(cs, bt, n, prefix))
        },
        SVerb::Raise => match loc.parent {
            Some(p) => Ok(raise(cs, bt, p, n)),
            None => Err(not_applicable("raise: node has no parent")),
        },
        SVerb::Splice => or_not_applicable(crate::structural::splice(cs, bt, n), "splice: node is not a list"),
        SVerb::SlurpFwd => match sibling(&loc, true) {
            Some(x) => or_not_applicable(slurp_forward(cs, bt, n, x), "slurp-fwd: node is not a list"),
            None => Err(not_applicable("slurp-fwd: no next sibling")),
        },
        SVerb::SlurpBack => match sibling(&loc, false) {
            Some(x) => or_not_applicable(slurp_backward(cs, bt, n, x), "slurp-back: node is not a list"),
            None => Err(not_applicable("slurp-back: no previous sibling")),
        },
        SVerb::BarfFwd => or_not_applicable(barf_forward(cs, bt, n), "barf-fwd: empty or non-list"),
        SVerb::BarfBack => or_not_applicable(barf_backward(cs, bt, n), "barf-back: empty or non-list"),
        SVerb::Split => match op.index {
            Some(i) => or_not_applicable(split(cs, bt, n, i), "split: bad index or non-list"),
            None => Err(not_applicable("split: missing index")),
        },
        SVerb::Join => match &op.anchor2 {
            Some(a2) => match resolve_in(cs, nl, data, a2) {
                Some(l2) => or_not_applicable(join(cs, bt, n, l2.node), "join: both must be lists"),
                None => Err(ApplyError::AnchorNotFound { line: a2.line, hash: a2.hash.clone() }),
            },
            None => Err(not_applicable("join: missing second anchor")),
        },
        SVerb::Rename => match &op.rename {
            Some(ft) => Ok(rename(cs, bt, n, ft.0.as_str(), ft.1.as_str())),
            None => Err(not_applicable("rename: missing from/to")),
        },
        SVerb::Format => {
            let mut es: Vec<Edit> = Vec::new();
            es.push(crate::structural::edit_at(cs, bt, n.start, n.end, node_string(cs, n)));
            Ok(es)
        },
    }
}

/// The new content of Structural `patch` applied to the file content
/// `source` (read as `dialect`), with where each edit's text lands in it:
/// the decision part of applying a Structural patch, before any reindent
/// and the safe write.
pub fn plan_struct_patch(source: &str, patch: &StructPatch, dialect: Dialect) -> (r: Result<StructPlan, ApplyError>)
    ensures
        struct_patch_planned(source@, patch@, dialect, r),
{
    let b = source.as_bytes();
    let actual = file_hash(b);
    let ac = chars_of(actual.as_str());
    let ec = chars_of(patch.file_hash.as_str());
    if !seq_eq(ac.as_slice(), ec.as_slice()) {
        return Err(ApplyError::Drift { expected: patch.file_hash.clone(), actual });
    }
    let forms = read(source, dialect, false);
    let cs = chars_of(source);
    let nl = line_numbers(cs.as_slice());
    let bt = byte_table(cs.as_slice());
    let ghost ops = patch@.ops;
    let ghost fs = forms@;
    let mut edits: Vec<Edit> = Vec::new();
    let mut flags: Vec<bool> = Vec::new();
    let mut k: usize = 0;
    while k < patch.ops.len()
        invariant
            b@ == encode_utf8(source@),
            file_hash_spec(b@) == patch@.file_hash,
            cs@ == source@,
            fs == forms@,
            reads_as(source@, dialect_name_spec(dialect), false, fs),
            ops == patch@.ops,
            ops.len() == patch.ops@.len(),
            byte_table_of(cs@, bt@),
            nl@.len() == cs@.len() + 1,
            forall|q: int| 0 <= q <= cs@.len() ==> nl@[q] == nl_count(cs@, q),
            k <= ops.len(),
            struct_edits_upto(cs@, fs, ops, k as int) matches Ok((ts, fl)) && edits_are(edits@, ts)
                && flags@ == fl,
            flags@.len() == edits@.len(),
        decreases patch.ops.len() - k,
    {
        let op = &patch.ops[k];
        assert(ops[k as int] == op@);
        let loc = match resolve_in(cs.as_slice(), &nl, forms.as_slice(), &op.anchor) {
            Some(l) => l,
            None => {
                let r = Err(ApplyError::AnchorNotFound { line: op.anchor.line, hash: op.anchor.hash.clone() });
                proof {
                    lemma_upto_err(cs@, fs, ops, k + 1, ops.len() as int);
                }
                assert(struct_plan_outcome(source@, fs, ops, r));
                return r;
            },
        };
        let mut more = match build_struct_edits(cs.as_slice(), &nl, &bt, forms.as_slice(), op, loc) {
            Ok(es) => es,
            Err(e) => {
                let r = Err(e);
                proof {
                    lemma_upto_err(cs@, fs, ops, k + 1, ops.len() as int);
                }
                assert(struct_plan_outcome(source@, fs, ops, r));
                return r;
            },
        };
        let is_format = match op.verb {
            SVerb::Format => true,
            _ => false,
        };
        let ghost ts0 = edits@;
        let ghost fl0 = flags@;
        let ghost m0 = more@;
        let mlen = more.len();
        let mut j: usize = 0;
        while more.len() > 0
            invariant
                mlen == m0.len(),
                j + more@.len() == m0.len(),
                more@ == m0.subrange(j as int, m0.len() as int),
                edits@ == ts0 + m0.subrange(0, j as int),
                flags@ == fl0 + Seq::new(j as nat, |i: int| is_format),
            decreases more@.len(),
        {
            let e = more.remove(0);
            edits.push(e);
            flags.push(is_format);
            proof {
                assert(m0.subrange(0, j + 1) == m0.subrange(0, j as int).push(e));
                assert(Seq::new((j + 1) as nat, |i: int| is_format) == Seq::new(j as nat, |i: int| is_format).push(is_format));
            }
            j = j + 1;
        }
        proof {
            assert(m0.subrange(0, j as int) == m0);
            let prev = struct_edits_upto(cs@, fs, ops, k as int);
            let (ts, fl) = prev->Ok_0;
            let more_t = op_edits_spec(cs@, fs, op@, loc@)->Ok_0;
            assert(is_format == (ops[k as int].verb == SVerb::Format));
            assert(Seq::new(j as nat, |i: int| is_format) == Seq::new(more_t.len(), |i: int| ops[k as int].verb == SVerb::Format));
            assert(edits_are(edits@, ts + more_t)) by {
                assert forall|q: int| 0 <= q < edits@.len() implies edit_is(#[trigger] edits@[q], (ts + more_t)[q]) by {
                    if q < ts.len() {
                        assert(edits@[q] == ts0[q]);
                    } else {
                        assert(edits@[q] == m0[q - ts.len()]);
                    }
                }
            }
        }
        k = k + 1;
    }
    let spans = landed_spans(&edits);
    let ghost es = edits@;
    let ghost fl = flags@;
    let mut expand: Vec<std::ops::Range<usize>> = Vec::new();
    let mut exact: Vec<std::ops::Range<usize>> = Vec::new();
    let mut i: usize = 0;
    while i < spans.len()
        invariant
            es == edits@,
            fl == flags@,
            fl.len() == es.len(),
            spans@.len() == es.len(),
            forall|q: int|
                0 <= q < es.len() ==> spans@[q].start == clamp_usize(landed(es, q).0) && spans@[q].end
                    == clamp_usize(landed(es, q).1),
            i <= spans@.len(),
            ranges_are(expand@, picked(es, fl, false, i as int)),
            ranges_are(exact@, picked(es, fl, true, i as int)),
        decreases spans.len() - i,
    {
        let r = spans[i].start..spans[i].end;
        let ghost x0 = expand@;
        let ghost y0 = exact@;
        if flags[i] {
            exact.push(r);
        } else {
            expand.push(r);
        }
        proof {
            assert forall|q: int| 0 <= q < expand@.len() implies (#[trigger] expand@[q].start as int, expand@[q].end as int)
                == picked(es, fl, false, i + 1)[q] by {
                if q < x0.len() {
                    assert(expand@[q] == x0[q]);
                }
            }
            assert forall|q: int| 0 <= q < exact@.len() implies (#[trigger] exact@[q].start as int, exact@[q].end as int)
                == picked(es, fl, true, i + 1)[q] by {
                if q < y0.len() {
                    assert(exact@[q] == y0[q]);
                }
            }
        }
        i = i + 1;
    }
    let ghost ts = struct_edits_upto(cs@, fs, ops, ops.len() as int)->Ok_0.0;
    assert(edits_are(es, ts));
    let r = match splice(source, edits) {
        Ok(content) => Ok(StructPlan { content, expand, exact }),
        Err(x) => Err(ApplyError::Splice(x)),
    };
    assert(struct_plan_outcome(source@, fs, ops, r));
    r
}


/// Whether this library reindents the touched region of a Structural edit
/// in `d`: Emacs Lisp, Common Lisp, Clojure, Phel and the Scheme family, whose indent
/// engines it carries.
pub open spec fn auto_formats(d: Dialect) -> bool {
    d == Dialect::EmacsLisp || d == Dialect::CommonLisp || d == Dialect::Clojure || d == Dialect::Phel || engine_of(d)
        == crate::format::Engine::Scheme
}

/// Whether the library auto-formats `d` (see [`auto_formats`]).
pub fn auto_formats_exec(d: Dialect) -> (b: bool)
    ensures
        b == auto_formats(d),
{
    match d {
        Dialect::EmacsLisp | Dialect::CommonLisp | Dialect::Clojure | Dialect::Phel | Dialect::Scheme
        | Dialect::Guile | Dialect::Racket
        | Dialect::Gauche | Dialect::Mosh | Dialect::Gambit | Dialect::SchemeSuperset => true,
        _ => false,
    }
}

/// The content a planned Structural patch writes: in a dialect the library
/// auto-formats, the plan's content with the touched region reindented (the
/// whole top-level forms its edits touch, and exactly the forms of its
/// `format` ops), measuring columns under Nameless for the file `file_name`
/// when `config` says the file uses it; elsewhere the content unchanged.
pub fn finish_struct_plan(plan: &StructPlan, dialect: Dialect, config: &FormatConfig, file_name: &str) -> (r: String)
    ensures
        !auto_formats(dialect) ==> r@ == plan.content@,
        auto_formats(dialect) ==> exists|forms: Seq<Node>|
            reads_as(plan.content@, dialect_name_spec(dialect), true, forms) && r@ == formatted(
                engine_of(dialect),
                plan.content@,
                forms,
                elisp_specs(plan.content@),
                *config,
                if config.nameless {
                    Some(prefixes_for(file_name@))
                } else {
                    None
                },
                Some(#[trigger] touched_mask(plan.content@, forms, plan.expand@, plan.exact@)),
            ),
{
    if !auto_formats_exec(dialect) {
        return plan.content.clone();
    }
    let touched = Touched { expand: plan.expand.as_slice(), exact: plan.exact.as_slice() };
    if config.nameless {
        let nl = Nameless::for_file(file_name);
        reindent(plan.content.as_str(), config, dialect, Some(&nl), touched)
    } else {
        reindent(plan.content.as_str(), config, dialect, None, touched)
    }
}


/// The outcome of writing `after` over `before`: the new file hash, which
/// guards the next batch, and a warning for each definition no longer
/// recognized.
pub fn outcome_of(before: &str, after: &str, dialect: Dialect) -> (r: Outcome)
    ensures
        r.new_file_hash@ == file_hash_spec(encode_utf8(after@)),
        exists|fb: Seq<Node>, fa: Seq<Node>|
            reads_as(before@, dialect_name_spec(dialect), false, fb)
                && reads_as(after@, dialect_name_spec(dialect), false, fa)
                && r.warnings@.map_values(|w: String| w@) == #[trigger] disappeared_spec(
                outline_spec(before@, fb),
                #[trigger] outline_spec(after@, fa),
                outline_spec(before@, fb).len() as int,
            ),
{
    let warnings = disappeared_definitions(before, after, dialect);
    Outcome { new_file_hash: file_hash(after.as_bytes()), warnings }
}


/// A Structural `delete` removes the anchored node: it makes exactly one
/// edit, over the node's own byte span, and that edit writes nothing.
pub proof fn law_delete_removes_the_node(src: Seq<char>, forms: Seq<Node>, op: SOpV, loc: LocV)
    requires
        op.verb == SVerb::Delete,
    ensures
        op_edits_spec(src, forms, op, loc) matches Ok(es) && es.len() == 1 && es[0].text.len() == 0
            && es[0].start == crate::format::byte_of(src, loc.node.start as int) && es[0].end == crate::format::byte_of(
            src,
            loc.node.end as int,
        ),
{
}

/// A Structural `replace` puts the op's text (nothing when it has none)
/// in place of the anchored node: one edit over the node's byte span.
pub proof fn law_replace_writes_the_op_text(src: Seq<char>, forms: Seq<Node>, op: SOpV, loc: LocV)
    requires
        op.verb == SVerb::Replace,
    ensures
        op_edits_spec(src, forms, op, loc) matches Ok(es) && es.len() == 1 && es[0].text == match op.text {
            Some(t) => t,
            None => Seq::<char>::empty(),
        } && es[0].start == crate::format::byte_of(src, loc.node.start as int) && es[0].end
            == crate::format::byte_of(src, loc.node.end as int),
{
}


/// A Structural `wrap` encloses the anchored node in a new list: an
/// insertion of `(` (then the op's head text and a space, when it has one)
/// at the node's start, and an insertion of `)` at its end.
pub proof fn law_wrap_encloses_the_node(src: Seq<char>, forms: Seq<Node>, op: SOpV, loc: LocV)
    requires
        op.verb == SVerb::Wrap,
    ensures
        op_edits_spec(src, forms, op, loc) matches Ok(es) && es.len() == 2
            && es[0].start == crate::format::byte_of(src, loc.node.start as int) && es[0].end == es[0].start
            && es[0].text == (match op.text {
                Some(t) if t.len() > 0 => "("@ + t + " "@,
                _ => "("@,
            }) && es[1].start == crate::format::byte_of(src, loc.node.end as int) && es[1].end == es[1].start
            && es[1].text == ")"@,
{
}

/// A Structural `raise` replaces the anchored node's parent with the node:
/// one edit over the parent's byte span writing the node's own text; a
/// node without a parent cannot be raised.
pub proof fn law_raise_replaces_the_parent(src: Seq<char>, forms: Seq<Node>, op: SOpV, loc: LocV)
    requires
        op.verb == SVerb::Raise,
    ensures
        loc.parent is None ==> op_edits_spec(src, forms, op, loc) is Err,
        loc.parent matches Some(p) ==> op_edits_spec(src, forms, op, loc) matches Ok(es) && es.len() == 1
            && es[0].start == crate::format::byte_of(src, p.start as int) && es[0].end == crate::format::byte_of(
            src,
            p.end as int,
        ) && es[0].text == node_text(src, loc.node),
{
}

/// A Structural `format` rewrites nothing by itself: one edit over the
/// anchored node's span that writes the node's own text (the reindent of
/// the patch then covers it).
pub proof fn law_format_keeps_the_node_text(src: Seq<char>, forms: Seq<Node>, op: SOpV, loc: LocV)
    requires
        op.verb == SVerb::Format,
    ensures
        op_edits_spec(src, forms, op, loc) matches Ok(es) && es.len() == 1 && es[0].text == node_text(src, loc.node)
            && es[0].start == crate::format::byte_of(src, loc.node.start as int) && es[0].end
            == crate::format::byte_of(src, loc.node.end as int),
{
}

} // verus!
