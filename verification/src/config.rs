//! Resolving format config — `indent-tabs-mode`, `tab-width`,
//! `lisp-body-indent`, `comment-column` and `nameless-mode` — from file-local
//! variables, directory-local variables, and EditorConfig, in Emacs's
//! precedence (file-local > dir-local > EditorConfig > defaults).

use vstd::prelude::*;

use crate::reader::{read, Dialect, Node, Shape};
use crate::text::{
    chars_of, eq_lit, find, find_from, find_from_exec, has_prefix_at, lemma_find_from,
    lemma_next_of, lemma_rfind_before, next_of, next_of_exec, parse_usize, parse_usize_spec,
    rfind, rfind_exec, rust_line_spans, rust_lines, slice_range, split_char, split_char_spans,
    split_once, starts_with_at, trim, trimmed, ascii_lower, ascii_lower_range, string_of_range,
    byte_pos, byte_pos_exec, bytes_range, lemma_byte_pos,
};

verus! {

/// Formatting parameters resolved for a file.
#[derive(Debug, Clone, Copy, PartialEq, Eq, Structural)]
pub struct FormatConfig {
    /// Emacs `indent-tabs-mode`: leading indent uses tabs when true.
    pub indent_tabs: bool,
    /// Emacs `tab-width`: columns per tab.
    pub tab_width: usize,
    /// Emacs `lisp-body-indent`: columns for one structural indent step.
    pub body_indent: usize,
    /// Emacs `comment-column`: the column a lone `;` own-line comment aligns to.
    pub comment_column: usize,
    /// Whether the file is indented under Nameless, so column measurement must
    /// account for its prefix composition.
    pub nameless: bool,
    /// The fixed (Tonsky) Clojure style: every symbol-headed list's body at
    /// a flat `lisp-body-indent`, with no rule table.
    pub clojure_fixed_indent: bool,
    /// The opt-in EISL style for ISLisp (edlis's conventions: the cljfmt
    /// model with a fixed body indent of 4); plain ISLisp uses the generic
    /// style.
    pub islisp_eisl: bool,
}

/// The defaults: spaces, `tab-width` 8, `lisp-body-indent` 2,
/// `comment-column` 40, Nameless off, the rule-table Clojure style.
pub open spec fn default_config() -> FormatConfig {
    FormatConfig {
        indent_tabs: false,
        tab_width: 8,
        body_indent: 2,
        comment_column: 40,
        nameless: false,
        clojure_fixed_indent: false,
        islisp_eisl: false,
    }
}

impl Default for FormatConfig {
    fn default() -> (c: Self)
        ensures
            c == default_config(),
    {
        FormatConfig {
            indent_tabs: false,
            tab_width: 8,
            body_indent: 2,
            comment_column: 40,
            nameless: false,
            clojure_fixed_indent: false,
            islisp_eisl: false,
        }
    }
}

// --- One `variable: value` pair -----------------------------------------------

/// What `variable: value` does to `cfg`: the five variables the formatter
/// reads are set from a recognized value (`t`/`nil`, or an unsigned integer);
/// anything else leaves `cfg` as it was. Both sides are trimmed first.
pub open spec fn set_var_spec(cfg: FormatConfig, var: Seq<char>, val: Seq<char>) -> FormatConfig {
    let k = trim(var);
    let v = trim(val);
    if k == "indent-tabs-mode"@ {
        if v == "nil"@ {
            FormatConfig { indent_tabs: false, ..cfg }
        } else if v == "t"@ {
            FormatConfig { indent_tabs: true, ..cfg }
        } else {
            cfg
        }
    } else if k == "tab-width"@ {
        match parse_usize_spec(v) {
            Some(n) => FormatConfig { tab_width: n, ..cfg },
            None => cfg,
        }
    } else if k == "lisp-body-indent"@ {
        match parse_usize_spec(v) {
            Some(n) => FormatConfig { body_indent: n, ..cfg },
            None => cfg,
        }
    } else if k == "comment-column"@ {
        match parse_usize_spec(v) {
            Some(n) => FormatConfig { comment_column: n, ..cfg },
            None => cfg,
        }
    } else if k == "nameless-mode"@ {
        if v == "t"@ {
            FormatConfig { nameless: true, ..cfg }
        } else if v == "nil"@ {
            FormatConfig { nameless: false, ..cfg }
        } else {
            cfg
        }
    } else if k == "islisp-indent-style"@ && v == "eisl"@ {
        FormatConfig { islisp_eisl: true, ..cfg }
    } else {
        cfg
    }
}

/// Interpret one `variable: value` pair against the config.
pub fn set_var(cfg: &mut FormatConfig, var: &[char], val: &[char])
    ensures
        *final(cfg) == set_var_spec(*old(cfg), var@, val@),
{
    let k = trimmed(var, 0, var.len());
    let v = trimmed(val, 0, val.len());
    assert(var@.subrange(0, var@.len() as int) == var@);
    assert(val@.subrange(0, val@.len() as int) == val@);
    assert(v@.subrange(0, v@.len() as int) == v@);
    if eq_lit(k.as_slice(), "indent-tabs-mode") {
        if eq_lit(v.as_slice(), "nil") {
            cfg.indent_tabs = false;
        } else if eq_lit(v.as_slice(), "t") {
            cfg.indent_tabs = true;
        }
    } else if eq_lit(k.as_slice(), "tab-width") {
        if let Some(n) = parse_usize(v.as_slice(), 0, v.len()) {
            cfg.tab_width = n;
        }
    } else if eq_lit(k.as_slice(), "lisp-body-indent") {
        if let Some(n) = parse_usize(v.as_slice(), 0, v.len()) {
            cfg.body_indent = n;
        }
    } else if eq_lit(k.as_slice(), "comment-column") {
        if let Some(n) = parse_usize(v.as_slice(), 0, v.len()) {
            cfg.comment_column = n;
        }
    } else if eq_lit(k.as_slice(), "nameless-mode") {
        if eq_lit(v.as_slice(), "t") {
            cfg.nameless = true;
        } else if eq_lit(v.as_slice(), "nil") {
            cfg.nameless = false;
        }
    } else if eq_lit(k.as_slice(), "islisp-indent-style") && eq_lit(v.as_slice(), "eisl") {
        cfg.islisp_eisl = true;
    }
}

/// What a `key: value` text does to `cfg` (nothing without a `:`).
pub open spec fn kv_spec(cfg: FormatConfig, part: Seq<char>) -> FormatConfig {
    match split_once(part, ':') {
        Some((k, v)) => set_var_spec(cfg, k, v),
        None => cfg,
    }
}

/// Apply `s[from..to]` as a `key: value` text.
fn apply_kv(cfg: &mut FormatConfig, s: &[char], from: usize, to: usize)
    requires
        from <= to <= s@.len(),
    ensures
        *final(cfg) == kv_spec(*old(cfg), s@.subrange(from as int, to as int)),
{
    let part = slice_range(s, from, to);
    let j = next_of_exec(part.as_slice(), ':', 0);
    if j < part.len() {
        let k = slice_range(part.as_slice(), 0, j);
        let v = slice_range(part.as_slice(), j + 1, part.len());
        set_var(cfg, k.as_slice(), v.as_slice());
    }
}

// --- File-local variables -------------------------------------------------------

/// The `-*- … -*-` line: the first line, or the second if the first is a
/// shebang.
pub open spec fn header_line(src: Seq<char>) -> Seq<char> {
    let ls = rust_lines(src);
    let first = if ls.len() > 0 {
        ls[0]
    } else {
        Seq::empty()
    };
    if has_prefix_at(first, 0, "#!"@) {
        if ls.len() > 1 {
            ls[1]
        } else {
            Seq::empty()
        }
    } else {
        first
    }
}

/// The text between the first `open` and the next `close` after it.
pub open spec fn between_spec(s: Seq<char>, open: Seq<char>, close: Seq<char>) -> Option<Seq<char>> {
    match find(s, open) {
        None => None,
        Some(i) => match find_from(s, close, i + open.len()) {
            None => None,
            Some(e) => Some(s.subrange(i + open.len(), e)),
        },
    }
}

/// Applying the `key: value` parts in order.
pub open spec fn parts_spec(cfg: FormatConfig, parts: Seq<Seq<char>>) -> FormatConfig
    decreases parts.len(),
{
    if parts.len() == 0 {
        cfg
    } else {
        kv_spec(parts_spec(cfg, parts.drop_last()), parts.last())
    }
}

/// What the `-*- var: val; … -*-` header does to `cfg`: only the form with a
/// `:` carries variables.
pub open spec fn header_spec(src: Seq<char>, cfg: FormatConfig) -> FormatConfig {
    match between_spec(header_line(src), "-*-"@, "-*-"@) {
        None => cfg,
        Some(inner) => if inner.contains(':') {
            parts_spec(cfg, split_char(inner, ';'))
        } else {
            cfg
        },
    }
}

/// The text between the first `open` and the next `close` after it.
pub fn between(s: &[char], open: &str, close: &str) -> (r: Option<Vec<char>>)
    ensures
        match r {
            Some(v) => between_spec(s@, open@, close@) == Some(v@),
            None => between_spec(s@, open@, close@) is None,
        },
{
    let o = chars_of(open);
    let c = chars_of(close);
    proof {
        lemma_find_from(s@, o@, 0);
    }
    match find_from_exec(s, o.as_slice(), 0) {
        None => None,
        Some(i) => {
            let n = s.len();
            assert(i + o@.len() <= n);
            let start = i + o.len();
            proof {
                lemma_find_from(s@, c@, start as int);
            }
            match find_from_exec(s, c.as_slice(), start) {
                None => None,
                Some(e) => Some(slice_range(s, start, e)),
            }
        },
    }
}

/// The `-*- … -*-` line applies its `var: val; …` pairs.
pub fn apply_header(source: &[char], cfg: &mut FormatConfig)
    ensures
        *final(cfg) == header_spec(source@, *old(cfg)),
{
    let spans = rust_line_spans(source);
    let ghost ls = rust_lines(source@);
    let first: Vec<char> = if spans.len() > 0 {
        slice_range(source, spans[0].0, spans[0].1)
    } else {
        Vec::new()
    };
    let shebang = chars_of("#!");
    let header: Vec<char> = if starts_with_at(first.as_slice(), 0, shebang.as_slice()) {
        if spans.len() > 1 {
            slice_range(source, spans[1].0, spans[1].1)
        } else {
            Vec::new()
        }
    } else {
        first
    };
    assert(header@ == header_line(source@));
    let inner = match between(header.as_slice(), "-*-", "-*-") {
        Some(v) => v,
        None => return,
    };
    let colon = next_of_exec(inner.as_slice(), ':', 0);
    proof {
        lemma_next_of(inner@, ':', 0);
    }
    if colon >= inner.len() {
        assert(!inner@.contains(':'));
        return;
    }
    assert(inner@.contains(':')) by {
        assert(inner@[colon as int] == ':');
    }
    let parts = split_char_spans(inner.as_slice(), 0, inner.len(), ';');
    let ghost all = split_char(inner@, ';');
    assert(inner@.subrange(0, inner@.len() as int) == inner@);
    let ghost cfg0 = *cfg;
    let mut k: usize = 0;
    while k < parts.len()
        invariant
            k <= parts@.len() == all.len(),
            inner@.subrange(0, inner@.len() as int) == inner@,
            all == split_char(inner@, ';'),
            forall|q: int|
                0 <= q < parts@.len() ==> 0 <= (#[trigger] parts@[q]).0 <= parts@[q].1 <= inner@.len()
                    && inner@.subrange(parts@[q].0 as int, parts@[q].1 as int) == all[q],
            *cfg == parts_spec(cfg0, all.take(k as int)),
        decreases parts.len() - k,
    {
        let (a, b) = parts[k];
        apply_kv(cfg, inner.as_slice(), a, b);
        assert(all.take(k + 1).drop_last() == all.take(k as int));
        k = k + 1;
    }
    assert(all.take(k as int) == all);
}

/// The body of one footer line: the line without the shared comment prefix
/// (or, lacking it, the line itself), trimmed.
pub open spec fn footer_body(line: Seq<char>, prefix: Seq<char>) -> Seq<char> {
    if has_prefix_at(line, 0, prefix) {
        trim(line.subrange(prefix.len() as int, line.len() as int))
    } else {
        trim(line)
    }
}

/// The footer lines from the `i`-th on, up to `End:`.
pub open spec fn footer_from(cfg: FormatConfig, lines: Seq<Seq<char>>, prefix: Seq<char>, i: int) -> FormatConfig
    decreases lines.len() - i,
{
    if i < 0 || i >= lines.len() {
        cfg
    } else {
        let body = footer_body(lines[i], prefix);
        if has_prefix_at(body, 0, "End:"@) {
            cfg
        } else {
            footer_from(kv_spec(cfg, body), lines, prefix, i + 1)
        }
    }
}

/// What the last `Local Variables:` … `End:` block does to `cfg`. Its lines
/// share the text that precedes the marker on the marker's line.
pub open spec fn footer_spec(src: Seq<char>, cfg: FormatConfig) -> FormatConfig {
    match rfind(src, "Local Variables:"@) {
        None => cfg,
        Some(m) => {
            let line_start = match rfind(src.subrange(0, m), seq!['\n']) {
                Some(i) => i + 1,
                None => 0,
            };
            footer_from(
                cfg,
                rust_lines(src.subrange(m, src.len() as int)),
                src.subrange(line_start, m),
                1,
            )
        },
    }
}

/// The footer `Local Variables:` … `End:` block applies its `var: val` lines.
pub fn apply_footer(source: &[char], cfg: &mut FormatConfig)
    ensures
        *final(cfg) == footer_spec(source@, *old(cfg)),
{
    let marker_text = chars_of("Local Variables:");
    let m = match rfind_exec(source, marker_text.as_slice()) {
        Some(m) => m,
        None => return,
    };
    proof {
        lemma_rfind_before(source@, marker_text@, source@.len() + 1int);
    }
    let before = slice_range(source, 0, m);
    let nl = chars_of("\n");
    proof {
        reveal_strlit("\n");
        assert(nl@ == seq!['\n']);
    }
    let line_start = match rfind_exec(before.as_slice(), nl.as_slice()) {
        Some(i) => {
            proof {
                lemma_rfind_before(before@, nl@, before@.len() + 1int);
            }
            i + 1
        },
        None => 0,
    };
    let prefix = slice_range(source, line_start, m);
    let rest = slice_range(source, m, source.len());
    let spans = rust_line_spans(rest.as_slice());
    let ghost lines = rust_lines(rest@);
    let ghost cfg0 = *cfg;
    let mut i: usize = 1;
    assert(footer_from(cfg0, lines, prefix@, 1) == footer_spec(source@, cfg0));
    while i < spans.len()
        invariant
            1 <= i,
            spans@.len() == lines.len(),
            lines == rust_lines(rest@),
            forall|q: int|
                0 <= q < spans@.len() ==> (#[trigger] spans@[q]).0 <= spans@[q].1 <= rest@.len()
                    && rest@.subrange(spans@[q].0 as int, spans@[q].1 as int) == lines[q],
            footer_from(*cfg, lines, prefix@, i as int) == footer_from(cfg0, lines, prefix@, 1),
            footer_from(cfg0, lines, prefix@, 1) == footer_spec(source@, *old(cfg)),
        decreases spans.len() - i,
    {
        let (a, b) = spans[i];
        let line = slice_range(rest.as_slice(), a, b);
        let body = if starts_with_at(line.as_slice(), 0, prefix.as_slice()) {
            trimmed(line.as_slice(), prefix.len(), line.len())
        } else {
            trimmed(line.as_slice(), 0, line.len())
        };
        assert(line@.subrange(0, line@.len() as int) == line@);
        assert(body@ == footer_body(lines[i as int], prefix@));
        let end = chars_of("End:");
        if starts_with_at(body.as_slice(), 0, end.as_slice()) {
            assert(footer_from(*cfg, lines, prefix@, i as int) == *cfg);
            return;
        }
        apply_kv(cfg, body.as_slice(), 0, body.len());
        assert(body@.subrange(0, body@.len() as int) == body@);
        i = i + 1;
    }
}

/// What the file's own local variables do to `cfg`: the header first, then
/// the footer.
pub open spec fn file_locals_spec(src: Seq<char>, cfg: FormatConfig) -> FormatConfig {
    footer_spec(src, header_spec(src, cfg))
}

/// Apply the file-local variables of `source` (header, then footer).
pub fn apply_file_locals(source: &str, cfg: &mut FormatConfig)
    ensures
        *final(cfg) == file_locals_spec(source@, *old(cfg)),
{
    let cs = chars_of(source);
    apply_header(cs.as_slice(), cfg);
    apply_footer(cs.as_slice(), cfg);
}

// --- EditorConfig globs ------------------------------------------------------------
//
// Globs are matched byte by byte; every metacharacter is ASCII, so a byte
// never falls inside a multi-byte character where it matters.

pub const STAR: u8 = 42;
pub const SLASH: u8 = 47;
pub const QUESTION: u8 = 63;
pub const OPEN_SET: u8 = 91;
pub const CLOSE_SET: u8 = 93;
pub const BANG: u8 = 33;
pub const CARET: u8 = 94;
pub const DASH: u8 = 45;
pub const COMMA: u8 = 44;
pub const OPEN_BRACE: u8 = 123;
pub const CLOSE_BRACE: u8 = 125;

/// Whether byte `c` is in the class `p[i..hi)`: single bytes, and `a-z`
/// ranges written with three bytes.
pub open spec fn class_hit(p: Seq<u8>, i: int, hi: int, c: u8) -> bool
    decreases hi - i,
{
    if i >= hi {
        false
    } else if i + 2 < hi && p[i + 1] == DASH {
        (p[i] <= c && c <= p[i + 2]) || class_hit(p, i + 3, hi, c)
    } else {
        p[i] == c || class_hit(p, i + 1, hi, c)
    }
}

/// Whether the glob `p[pi..]` matches `s[si..]`: `**` matches anything, `*`
/// anything but `/`, `?` one byte but `/`, `[...]` a class (negated by `!` or
/// `^`), and any other byte itself.
pub open spec fn glob_at(p: Seq<u8>, pi: int, s: Seq<u8>, si: int) -> bool
    decreases p.len() - pi, 2int, 0int,
{
    if pi < 0 || si < 0 || pi > p.len() || si > s.len() {
        false
    } else if pi == p.len() {
        si == s.len()
    } else if p[pi] == STAR && pi + 1 < p.len() && p[pi + 1] == STAR {
        glob_any(p, pi + 2, s, si)
    } else if p[pi] == STAR {
        glob_star(p, pi + 1, s, si)
    } else if p[pi] == QUESTION {
        si < s.len() && s[si] != SLASH && glob_at(p, pi + 1, s, si + 1)
    } else if p[pi] == OPEN_SET {
        glob_set(p, pi, s, si)
    } else {
        si < s.len() && s[si] == p[pi] && glob_at(p, pi + 1, s, si + 1)
    }
}

/// Whether `p[qi..]` matches `s[k..]` for some `k` from `k` on.
pub open spec fn glob_any(p: Seq<u8>, qi: int, s: Seq<u8>, k: int) -> bool
    decreases p.len() - qi, 3int, s.len() + 1 - k,
{
    if qi < 0 || qi > p.len() || k < 0 || k > s.len() {
        false
    } else {
        glob_at(p, qi, s, k) || glob_any(p, qi, s, k + 1)
    }
}

/// Whether `p[qi..]` matches `s[k..]` for some `k` from `k` on that skips no
/// `/`.
pub open spec fn glob_star(p: Seq<u8>, qi: int, s: Seq<u8>, k: int) -> bool
    decreases p.len() - qi, 3int, s.len() + 1 - k,
{
    if qi < 0 || qi > p.len() || k < 0 || k > s.len() {
        false
    } else {
        glob_at(p, qi, s, k) || (k < s.len() && s[k] != SLASH && glob_star(p, qi, s, k + 1))
    }
}

/// A `[...]` class at `p[pi]` against `s[si]`, then the rest.
pub open spec fn glob_set(p: Seq<u8>, pi: int, s: Seq<u8>, si: int) -> bool
    decreases p.len() - pi, 1int, 0int,
{
    if pi < 0 || pi >= p.len() || p[pi] != OPEN_SET || si < 0 {
        false
    } else {
        let close = byte_pos(p, CLOSE_SET, pi);
        proof {
            lemma_byte_pos(p, CLOSE_SET, pi);
        }
        if close >= p.len() || si >= s.len() {
            false
        } else {
            let negate = pi + 1 < p.len() && (p[pi + 1] == BANG || p[pi + 1] == CARET);
            let lo = if negate {
                pi + 2
            } else {
                pi + 1
            };
            (class_hit(p, lo, close, s[si]) != negate) && glob_at(p, close + 1, s, si + 1)
        }
    }
}

/// Whether byte `c` is in the class `p[lo..hi)`.
fn class_hit_exec(p: &[u8], lo: usize, hi: usize, c: u8) -> (r: bool)
    requires
        lo <= hi <= p@.len(),
    ensures
        r == class_hit(p@, lo as int, hi as int, c),
{
    let mut i = lo;
    while i < hi
        invariant
            lo <= i,
            hi <= p@.len(),
            class_hit(p@, lo as int, hi as int, c) == class_hit(p@, i as int, hi as int, c),
        decreases hi - i,
    {
        if hi - i > 2 && p[i + 1] == DASH {
            if p[i] <= c && c <= p[i + 2] {
                return true;
            }
            i = i + 3;
        } else {
            if p[i] == c {
                return true;
            }
            i = i + 1;
        }
    }
    false
}

/// Whether the glob `p[pi..]` matches `s[si..]`.
fn match_glob(p: &[u8], pi: usize, s: &[u8], si: usize) -> (r: bool)
    requires
        pi <= p@.len(),
        si <= s@.len(),
    ensures
        r == glob_at(p@, pi as int, s@, si as int),
    decreases p@.len() - pi, 2int, 0int,
{
    if pi == p.len() {
        return si == s.len();
    }
    if p[pi] == STAR && pi + 1 < p.len() && p[pi + 1] == STAR {
        let q = pi + 2;
        let mut k = si;
        loop
            invariant
                q == pi + 2 <= p@.len(),
                si <= k <= s@.len(),
                glob_at(p@, pi as int, s@, si as int) == glob_any(p@, q as int, s@, k as int),
            decreases s@.len() - k,
        {
            if match_glob(p, q, s, k) {
                return true;
            }
            if k == s.len() {
                assert(!glob_any(p@, q as int, s@, k + 1));
                return false;
            }
            k = k + 1;
        }
    } else if p[pi] == STAR {
        let q = pi + 1;
        let mut k = si;
        loop
            invariant
                q == pi + 1 <= p@.len(),
                si <= k <= s@.len(),
                glob_at(p@, pi as int, s@, si as int) == glob_star(p@, q as int, s@, k as int),
            decreases s@.len() - k,
        {
            if match_glob(p, q, s, k) {
                return true;
            }
            if k == s.len() || s[k] == SLASH {
                return false;
            }
            k = k + 1;
        }
    } else if p[pi] == QUESTION {
        si < s.len() && s[si] != SLASH && match_glob(p, pi + 1, s, si + 1)
    } else if p[pi] == OPEN_SET {
        match_set(p, pi, s, si)
    } else {
        si < s.len() && s[si] == p[pi] && match_glob(p, pi + 1, s, si + 1)
    }
}

/// Match a `[...]` class at `p[pi]` against `s[si]`, then the rest.
fn match_set(p: &[u8], pi: usize, s: &[u8], si: usize) -> (r: bool)
    requires
        pi < p@.len(),
        p@[pi as int] == OPEN_SET,
        si <= s@.len(),
    ensures
        r == glob_set(p@, pi as int, s@, si as int),
    decreases p@.len() - pi, 1int, 0int,
{
    let close = byte_pos_exec(p, CLOSE_SET, pi);
    proof {
        lemma_byte_pos(p@, CLOSE_SET, pi as int);
    }
    if close >= p.len() || si >= s.len() {
        return false;
    }
    let negate = pi + 1 < p.len() && (p[pi + 1] == BANG || p[pi + 1] == CARET);
    let lo = if negate {
        pi + 2
    } else {
        pi + 1
    };
    let hit = class_hit_exec(p, lo, close, s[si]);
    hit != negate && match_glob(p, close + 1, s, si + 1)
}

/// `s.split(c)` over bytes, from offset `i`.
pub open spec fn split_bytes_from(s: Seq<u8>, c: u8, i: int) -> Seq<Seq<u8>>
    decreases s.len() - i,
{
    let j = byte_pos(s, c, i);
    if i < 0 || j >= s.len() {
        seq![s.subrange(i, s.len() as int)]
    } else {
        proof {
            lemma_byte_pos(s, c, i);
        }
        seq![s.subrange(i, j)] + split_bytes_from(s, c, j + 1)
    }
}

/// The pieces of `s.split(c)`.
fn split_bytes(s: &[u8], c: u8) -> (r: Vec<Vec<u8>>)
    ensures
        r@.len() == split_bytes_from(s@, c, 0).len(),
        forall|k: int| 0 <= k < r@.len() ==> (#[trigger] r@[k])@ == split_bytes_from(s@, c, 0)[k],
{
    let mut r: Vec<Vec<u8>> = Vec::new();
    let mut i: usize = 0;
    let ghost mut acc: Seq<Seq<u8>> = Seq::empty();
    loop
        invariant
            i <= s@.len(),
            acc + split_bytes_from(s@, c, i as int) == split_bytes_from(s@, c, 0),
            r@.len() == acc.len(),
            forall|k: int| 0 <= k < r@.len() ==> (#[trigger] r@[k])@ == acc[k],
        decreases s@.len() - i,
    {
        let j = byte_pos_exec(s, c, i);
        proof {
            lemma_byte_pos(s@, c, i as int);
        }
        r.push(bytes_range(s, i, j));
        proof {
            acc = acc.push(s@.subrange(i as int, j as int));
        }
        if j >= s.len() {
            assert(split_bytes_from(s@, c, i as int) == seq![s@.subrange(i as int, s@.len() as int)]);
            assert(acc == split_bytes_from(s@, c, 0));
            return r;
        }
        i = j + 1;
    }
}

/// Every `before ++ alt ++ tail`, alternatives outermost.
pub open spec fn cross(before: Seq<u8>, alts: Seq<Seq<u8>>, tails: Seq<Seq<u8>>) -> Seq<Seq<u8>>
    decreases alts.len(),
{
    if alts.len() == 0 {
        Seq::empty()
    } else {
        cross(before, alts.drop_last(), tails) + tails.map_values(
            |t: Seq<u8>| before + alts.last() + t,
        )
    }
}

/// One level of `{a,b,c}` brace alternation, expanded; the text after the
/// group is expanded in turn.
pub open spec fn expand_spec(g: Seq<u8>) -> Seq<Seq<u8>>
    decreases g.len(),
{
    let open = byte_pos(g, OPEN_BRACE, 0);
    if open >= g.len() {
        seq![g]
    } else {
        proof {
            lemma_byte_pos(g, OPEN_BRACE, 0);
            lemma_byte_pos(g, CLOSE_BRACE, open);
        }
        let close = byte_pos(g, CLOSE_BRACE, open);
        if close >= g.len() {
            seq![g]
        } else {
            cross(
                g.subrange(0, open),
                split_bytes_from(g.subrange(open + 1, close), COMMA, 0),
                expand_spec(g.subrange(close + 1, g.len() as int)),
            )
        }
    }
}

/// `a ++ b ++ c`.
fn concat3(a: &[u8], b: &[u8], c: &[u8]) -> (v: Vec<u8>)
    ensures
        v@ == a@ + b@ + c@,
{
    let mut v: Vec<u8> = bytes_range(a, 0, a.len());
    let mut k: usize = 0;
    while k < b.len()
        invariant
            k <= b@.len(),
            v@ == a@ + b@.subrange(0, k as int),
        decreases b.len() - k,
    {
        v.push(b[k]);
        k = k + 1;
    }
    let ghost ab = v@;
    k = 0;
    while k < c.len()
        invariant
            k <= c@.len(),
            ab == a@ + b@,
            v@ == ab + c@.subrange(0, k as int),
        decreases c.len() - k,
    {
        v.push(c[k]);
        k = k + 1;
    }
    v
}

/// Expand a single level of `{a,b,c}` brace alternation.
fn expand_braces(g: &[u8]) -> (r: Vec<Vec<u8>>)
    ensures
        r@.len() == expand_spec(g@).len(),
        forall|k: int| 0 <= k < r@.len() ==> (#[trigger] r@[k])@ == expand_spec(g@)[k],
    decreases g@.len(),
{
    let open = byte_pos_exec(g, OPEN_BRACE, 0);
    proof {
        lemma_byte_pos(g@, OPEN_BRACE, 0);
    }
    if open >= g.len() {
        return vec![bytes_range(g, 0, g.len())];
    }
    let close = byte_pos_exec(g, CLOSE_BRACE, open);
    proof {
        lemma_byte_pos(g@, CLOSE_BRACE, open as int);
    }
    if close >= g.len() {
        return vec![bytes_range(g, 0, g.len())];
    }
    let before = bytes_range(g, 0, open);
    let mid = bytes_range(g, open + 1, close);
    let after = bytes_range(g, close + 1, g.len());
    let tails = expand_braces(after.as_slice());
    let alts = split_bytes(mid.as_slice(), COMMA);
    let ghost ts = expand_spec(after@);
    let ghost al = split_bytes_from(mid@, COMMA, 0);
    assert(expand_spec(g@) == cross(before@, al, ts));
    let mut out: Vec<Vec<u8>> = Vec::new();
    let mut a: usize = 0;
    while a < alts.len()
        invariant
            a <= alts@.len() == al.len(),
            tails@.len() == ts.len(),
            forall|k: int| 0 <= k < alts@.len() ==> (#[trigger] alts@[k])@ == al[k],
            forall|k: int| 0 <= k < tails@.len() ==> (#[trigger] tails@[k])@ == ts[k],
            out@.len() == cross(before@, al.take(a as int), ts).len(),
            forall|k: int|
                0 <= k < out@.len() ==> (#[trigger] out@[k])@ == cross(before@, al.take(a as int), ts)[k],
        decreases alts.len() - a,
    {
        let ghost base = cross(before@, al.take(a as int), ts);
        let ghost alt = al[a as int];
        let mut t: usize = 0;
        while t < tails.len()
            invariant
                a < alts@.len() == al.len(),
                alt == al[a as int],
                alts@[a as int]@ == alt,
                t <= tails@.len() == ts.len(),
                forall|k: int| 0 <= k < tails@.len() ==> (#[trigger] tails@[k])@ == ts[k],
                out@.len() == base.len() + t,
                forall|k: int| 0 <= k < base.len() ==> (#[trigger] out@[k])@ == base[k],
                forall|k: int|
                    base.len() <= k < out@.len() ==> (#[trigger] out@[k])@ == before@ + alt + ts[k
                        - base.len()],
            decreases tails.len() - t,
        {
            let piece = concat3(before.as_slice(), alts[a].as_slice(), tails[t].as_slice());
            out.push(piece);
            t = t + 1;
        }
        proof {
            let f = |x: Seq<u8>| before@ + alt + x;
            assert(al.take(a + 1).drop_last() == al.take(a as int));
            assert(al.take(a + 1).last() == alt);
            let next = cross(before@, al.take(a + 1), ts);
            assert(next == base + ts.map_values(f));
            assert forall|k: int| 0 <= k < out@.len() implies (#[trigger] out@[k])@ == next[k] by {
                if k >= base.len() {
                    assert(ts.map_values(f)[k - base.len()] == f(ts[k - base.len()]));
                }
            }
        }
        a = a + 1;
    }
    assert(al.take(a as int) == al);
    out
}

/// The text after the last `/` of `s` (all of `s` without one).
pub open spec fn after_last_slash(s: Seq<u8>, j: int) -> int
    decreases j,
{
    if j <= 0 || j > s.len() {
        0
    } else if s[j - 1] == SLASH {
        j
    } else {
        after_last_slash(s, j - 1)
    }
}

/// The last `/`-separated piece of a path.
pub open spec fn basename(rel: Seq<u8>) -> Seq<u8> {
    rel.subrange(after_last_slash(rel, rel.len() as int), rel.len() as int)
}

/// Whether one expanded pattern matches: against the whole relative path
/// when it holds a `/`, else against the basename.
pub open spec fn pattern_matches(pat: Seq<u8>, rel: Seq<u8>) -> bool {
    if pat.contains(SLASH) {
        glob_at(pat, 0, rel, 0)
    } else {
        glob_at(pat, 0, basename(rel), 0)
    }
}

/// Whether an EditorConfig section glob matches a relative forward-slash
/// path: some expansion of its braces matches.
pub open spec fn glob_match_spec(glob: Seq<u8>, rel: Seq<u8>) -> bool {
    exists|k: int| 0 <= k < expand_spec(glob).len() && pattern_matches(#[trigger] expand_spec(glob)[k], rel)
}

/// Match an EditorConfig `glob` against a `rel`ative forward-slash path. A
/// glob without a `/` matches the basename in any directory.
pub fn glob_match(glob: &str, rel: &str) -> (r: bool)
    ensures
        r == glob_match_spec(vstd::utf8::encode_utf8(glob@), vstd::utf8::encode_utf8(rel@)),
{
    let g = glob.as_bytes();
    let s = rel.as_bytes();
    assert(g@ == vstd::utf8::encode_utf8(glob@));
    assert(s@ == vstd::utf8::encode_utf8(rel@));
    let mut j = s.len();
    while j > 0 && s[j - 1] != SLASH
        invariant
            j <= s@.len(),
            after_last_slash(s@, j as int) == after_last_slash(s@, s@.len() as int),
        decreases j,
    {
        j = j - 1;
    }
    let base = bytes_range(s, j, s.len());
    let pats = expand_braces(g);
    let ghost ps = expand_spec(g@);
    let mut k: usize = 0;
    while k < pats.len()
        invariant
            k <= pats@.len() == ps.len(),
            ps == expand_spec(g@),
            g@ == vstd::utf8::encode_utf8(glob@),
            s@ == vstd::utf8::encode_utf8(rel@),
            forall|q: int| 0 <= q < pats@.len() ==> (#[trigger] pats@[q])@ == ps[q],
            base@ == basename(s@),
            forall|q: int| 0 <= q < k ==> !pattern_matches(#[trigger] ps[q], s@),
        decreases pats.len() - k,
    {
        let pat = pats[k].as_slice();
        let slash = byte_pos_exec(pat, SLASH, 0);
        proof {
            lemma_byte_pos(pat@, SLASH, 0);
        }
        let hit = if slash < pat.len() {
            assert(pat@.contains(SLASH)) by {
                assert(pat@[slash as int] == SLASH);
            }
            match_glob(pat, 0, s, 0)
        } else {
            match_glob(pat, 0, base.as_slice(), 0)
        };
        if hit {
            assert(pattern_matches(ps[k as int], s@));
            assert(glob_match_spec(g@, s@));
            return true;
        }
        k = k + 1;
    }
    false
}

// --- EditorConfig -----------------------------------------------------------------

/// The EditorConfig properties the formatter reads.
#[derive(Debug, Clone, Copy)]
pub struct EcProps {
    /// `indent_style`: `tab` or `space`.
    pub indent_tabs: Option<bool>,
    /// `tab_width` (falling back to `indent_size`).
    pub tab_width: Option<usize>,
    /// `indent_size` → `lisp-body-indent`.
    pub indent_size: Option<usize>,
}

/// No properties.
pub open spec fn no_props() -> EcProps {
    EcProps { indent_tabs: None, tab_width: None, indent_size: None }
}

/// One line of an `.editorconfig` against the scan state: the properties so
/// far, whether `root = true` was seen, and whether the current section
/// matches `rel`. Keys and values are compared in ASCII lowercase.
pub open spec fn ec_step(st: (EcProps, bool, bool), line: Seq<char>, rel: Seq<u8>) -> (EcProps, bool, bool) {
    let l = trim(line);
    let props = st.0;
    let root = st.1;
    let matching = st.2;
    if l.len() == 0 || l[0] == '#' || l[0] == ';' {
        st
    } else if l.len() >= 2 && l[0] == '[' && l.last() == ']' {
        (props, root, glob_match_spec(vstd::utf8::encode_utf8(l.subrange(1, l.len() - 1)), rel))
    } else {
        match split_once(l, '=') {
            None => st,
            Some((k, v)) => {
                let key = ascii_lower(trim(k));
                let val = ascii_lower(trim(v));
                let root2 = root || (key == "root"@ && val == "true"@);
                if !matching {
                    (props, root2, matching)
                } else if key == "indent_style"@ {
                    if val == "tab"@ {
                        (EcProps { indent_tabs: Some(true), ..props }, root2, matching)
                    } else if val == "space"@ {
                        (EcProps { indent_tabs: Some(false), ..props }, root2, matching)
                    } else {
                        (props, root2, matching)
                    }
                } else if key == "tab_width"@ {
                    (EcProps { tab_width: parse_usize_spec(val), ..props }, root2, matching)
                } else if key == "indent_size"@ {
                    (EcProps { indent_size: parse_usize_spec(val), ..props }, root2, matching)
                } else {
                    (props, root2, matching)
                }
            },
        }
    }
}

/// The scan state after `lines`.
pub open spec fn ec_scan(lines: Seq<Seq<char>>, rel: Seq<u8>) -> (EcProps, bool, bool)
    decreases lines.len(),
{
    if lines.len() == 0 {
        (no_props(), false, false)
    } else {
        ec_step(ec_scan(lines.drop_last(), rel), lines.last(), rel)
    }
}

/// The properties one `.editorconfig` gives `rel` (later matching sections
/// win; `tab_width` defaults to `indent_size`), and whether it says
/// `root = true`.
pub open spec fn editorconfig_props_spec(content: Seq<char>, rel: Seq<u8>) -> (EcProps, bool) {
    let st = ec_scan(rust_lines(content), rel);
    let p = st.0;
    (
        EcProps {
            tab_width: if p.tab_width is None {
                p.indent_size
            } else {
                p.tab_width
            },
            ..p
        },
        st.1,
    )
}

/// Parse one `.editorconfig`, returning the properties for `rel` (later
/// matching sections win) and whether `root = true`.
pub fn editorconfig_props(content: &str, rel: &str) -> (r: (EcProps, bool))
    ensures
        r == editorconfig_props_spec(content@, vstd::utf8::encode_utf8(rel@)),
{
    let cs = chars_of(content);
    let spans = rust_line_spans(cs.as_slice());
    let ghost lines = rust_lines(cs@);
    let ghost relb = vstd::utf8::encode_utf8(rel@);
    let mut props = EcProps { indent_tabs: None, tab_width: None, indent_size: None };
    let mut is_root = false;
    let mut matching = false;
    let mut i: usize = 0;
    while i < spans.len()
        invariant
            i <= spans@.len() == lines.len(),
            lines == rust_lines(cs@),
            cs@ == content@,
            relb == vstd::utf8::encode_utf8(rel@),
            forall|q: int|
                0 <= q < spans@.len() ==> (#[trigger] spans@[q]).0 <= spans@[q].1 <= cs@.len()
                    && cs@.subrange(spans@[q].0 as int, spans@[q].1 as int) == lines[q],
            (props, is_root, matching) == ec_scan(lines.take(i as int), relb),
        decreases spans.len() - i,
    {
        let ghost before = (props, is_root, matching);
        let (a, b) = spans[i];
        let l = trimmed(cs.as_slice(), a, b);
        let n = l.len();
        if n == 0 || l[0] == '#' || l[0] == ';' {
        } else if n >= 2 && l[0] == '[' && l[n - 1] == ']' {
            let glob = string_of_range(l.as_slice(), 1, n - 1);
            matching = glob_match(glob.as_str(), rel);
        } else {
            let j = next_of_exec(l.as_slice(), '=', 0);
            if j < n {
                let k0 = trimmed(l.as_slice(), 0, j);
                let v0 = trimmed(l.as_slice(), j + 1, n);
                let key = ascii_lower_range(k0.as_slice(), 0, k0.len());
                let val = ascii_lower_range(v0.as_slice(), 0, v0.len());
                assert(k0@.subrange(0, k0@.len() as int) == k0@);
                assert(v0@.subrange(0, v0@.len() as int) == v0@);
                if eq_lit(key.as_slice(), "root") && eq_lit(val.as_slice(), "true") {
                    is_root = true;
                }
                if matching {
                    if eq_lit(key.as_slice(), "indent_style") {
                        if eq_lit(val.as_slice(), "tab") {
                            props.indent_tabs = Some(true);
                        } else if eq_lit(val.as_slice(), "space") {
                            props.indent_tabs = Some(false);
                        }
                    } else if eq_lit(key.as_slice(), "tab_width") {
                        props.tab_width = parse_usize(val.as_slice(), 0, val.len());
                        assert(val@.subrange(0, val@.len() as int) == val@);
                    } else if eq_lit(key.as_slice(), "indent_size") {
                        props.indent_size = parse_usize(val.as_slice(), 0, val.len());
                        assert(val@.subrange(0, val@.len() as int) == val@);
                    }
                }
            }
        }
        proof {
            assert(lines.take(i + 1).drop_last() == lines.take(i as int));
            assert((props, is_root, matching) == ec_step(before, lines[i as int], relb));
        }
        i = i + 1;
    }
    assert(lines.take(i as int) == lines);
    if props.tab_width.is_none() {
        props.tab_width = props.indent_size;
    }
    (props, is_root)
}

// --- Directory-local variables --------------------------------------------------------

/// The text of a symbol or number datum.
pub open spec fn atom_text_spec(src: Seq<char>, n: Node) -> Option<Seq<char>> {
    if (n.shape == Shape::Symbol || n.shape == Shape::Number) && n.start <= n.end <= src.len() {
        Some(src.subrange(n.start as int, n.end as int))
    } else {
        None
    }
}

/// Whether a dir-locals mode key applies to Emacs Lisp (`nil` = all modes).
pub open spec fn mode_applies_spec(src: Seq<char>, n: Node) -> bool {
    match atom_text_spec(src, n) {
        Some(t) => t == "nil"@ || t == "emacs-lisp-mode"@ || t == "lisp-mode"@ || t
            == "lisp-data-mode"@ || t == "prog-mode"@,
        None => false,
    }
}

/// The `(KEY . VALUE)` / `(KEY VALUE)` pair a datum is, if it is one.
pub open spec fn pair_spec(n: Node) -> Option<(Node, Node)> {
    if n.shape != Shape::List || n.items@.len() == 0 {
        None
    } else {
        match n.tail {
            Some(t) => Some((n.items@[0], *t)),
            None => if n.items@.len() == 2 {
                Some((n.items@[0], n.items@[1]))
            } else {
                None
            },
        }
    }
}

/// Applying, in order, the pairs among `ns` whose key and value are atoms.
pub open spec fn pairs_spec(cfg: FormatConfig, src: Seq<char>, ns: Seq<Node>) -> FormatConfig
    decreases ns.len(),
{
    if ns.len() == 0 {
        cfg
    } else {
        let c = pairs_spec(cfg, src, ns.drop_last());
        match pair_spec(ns.last()) {
            Some((k, v)) => match (atom_text_spec(src, k), atom_text_spec(src, v)) {
                (Some(var), Some(val)) => set_var_spec(c, var, val),
                _ => c,
            },
            None => c,
        }
    }
}

/// One `(MODE . ((VAR . VAL) …))` or `(MODE (VAR . VAL) …)` entry.
pub open spec fn entry_spec(cfg: FormatConfig, src: Seq<char>, e: Node) -> FormatConfig {
    if e.shape != Shape::List || e.items@.len() == 0 || !mode_applies_spec(src, e.items@[0]) {
        cfg
    } else {
        match e.tail {
            Some(t) => if t.shape == Shape::List {
                pairs_spec(cfg, src, t.items@)
            } else {
                cfg
            },
            None => pairs_spec(cfg, src, e.items@.subrange(1, e.items@.len() as int)),
        }
    }
}

/// Applying the entries in order.
pub open spec fn entries_spec(cfg: FormatConfig, src: Seq<char>, es: Seq<Node>) -> FormatConfig
    decreases es.len(),
{
    if es.len() == 0 {
        cfg
    } else {
        entry_spec(entries_spec(cfg, src, es.drop_last()), src, es.last())
    }
}

/// What a `.dir-locals.el` read as `forms` does to `cfg`: its first datum is
/// the alist of mode entries.
pub open spec fn dir_locals_spec(cfg: FormatConfig, src: Seq<char>, forms: Seq<Node>) -> FormatConfig {
    if forms.len() == 0 || forms[0].shape != Shape::List {
        cfg
    } else {
        entries_spec(cfg, src, forms[0].items@)
    }
}

/// The text of a symbol or number datum.
fn atom_text(src: &[char], n: &Node) -> (r: Option<Vec<char>>)
    ensures
        match r {
            Some(v) => atom_text_spec(src@, *n) == Some(v@),
            None => atom_text_spec(src@, *n) is None,
        },
{
    let atom = match n.shape {
        Shape::Symbol | Shape::Number => true,
        _ => false,
    };
    if atom && n.start <= n.end && n.end <= src.len() {
        Some(slice_range(src, n.start, n.end))
    } else {
        None
    }
}

/// Whether a dir-locals mode key applies to Emacs Lisp.
fn mode_applies(src: &[char], n: &Node) -> (b: bool)
    ensures
        b == mode_applies_spec(src@, *n),
{
    match atom_text(src, n) {
        Some(t) => {
            let t = t.as_slice();
            eq_lit(t, "nil") || eq_lit(t, "emacs-lisp-mode") || eq_lit(t, "lisp-mode") || eq_lit(
                t,
                "lisp-data-mode",
            ) || eq_lit(t, "prog-mode")
        },
        None => false,
    }
}

/// Apply the pair `n`, if it is one of two atoms.
fn apply_pair(cfg: &mut FormatConfig, src: &[char], n: &Node)
    ensures
        *final(cfg) == (match pair_spec(*n) {
            Some((k, v)) => match (atom_text_spec(src@, k), atom_text_spec(src@, v)) {
                (Some(var), Some(val)) => set_var_spec(*old(cfg), var, val),
                _ => *old(cfg),
            },
            None => *old(cfg),
        }),
{
    let is_list = match n.shape {
        Shape::List => true,
        _ => false,
    };
    if !is_list || n.items.len() == 0 {
        return;
    }
    let key = &n.items[0];
    let val: &Node = match &n.tail {
        Some(t) => t,
        None => {
            if n.items.len() == 2 {
                &n.items[1]
            } else {
                return;
            }
        },
    };
    if let Some(var) = atom_text(src, key) {
        if let Some(value) = atom_text(src, val) {
            set_var(cfg, var.as_slice(), value.as_slice());
        }
    }
}

/// Apply the pairs among `ns[from..]` in order.
fn apply_pairs(cfg: &mut FormatConfig, src: &[char], ns: &Vec<Node>, from: usize)
    requires
        from <= ns@.len(),
    ensures
        *final(cfg) == pairs_spec(*old(cfg), src@, ns@.subrange(from as int, ns@.len() as int)),
{
    let ghost cfg0 = *cfg;
    let ghost all = ns@.subrange(from as int, ns@.len() as int);
    let mut i = from;
    while i < ns.len()
        invariant
            from <= i <= ns@.len(),
            all == ns@.subrange(from as int, ns@.len() as int),
            cfg0 == *old(cfg),
            *cfg == pairs_spec(cfg0, src@, all.take(i - from)),
        decreases ns.len() - i,
    {
        apply_pair(cfg, src, &ns[i]);
        assert(all.take(i + 1 - from).drop_last() == all.take(i - from));
        i = i + 1;
    }
    assert(all.take(i - from) == all);
}

/// Apply one mode entry.
fn apply_entry(cfg: &mut FormatConfig, src: &[char], e: &Node)
    ensures
        *final(cfg) == entry_spec(*old(cfg), src@, *e),
{
    let is_list = match e.shape {
        Shape::List => true,
        _ => false,
    };
    if !is_list || e.items.len() == 0 || !mode_applies(src, &e.items[0]) {
        return;
    }
    match &e.tail {
        Some(t) => {
            let t_list = match t.shape {
                Shape::List => true,
                _ => false,
            };
            if t_list {
                apply_pairs(cfg, src, &t.items, 0);
                assert(t.items@.subrange(0, t.items@.len() as int) == t.items@);
            }
        },
        None => apply_pairs(cfg, src, &e.items, 1),
    }
}

/// Apply a `.dir-locals.el` whose text is `src` and whose data are `forms`.
pub fn apply_dir_locals_forms(cfg: &mut FormatConfig, src: &[char], forms: &Vec<Node>)
    ensures
        *final(cfg) == dir_locals_spec(*old(cfg), src@, forms@),
{
    if forms.len() == 0 {
        return;
    }
    let top = &forms[0];
    let is_list = match top.shape {
        Shape::List => true,
        _ => false,
    };
    if !is_list {
        return;
    }
    let ghost cfg0 = *cfg;
    let ghost es = top.items@;
    let mut i: usize = 0;
    while i < top.items.len()
        invariant
            i <= es.len(),
            es == top.items@,
            cfg0 == *old(cfg),
            *cfg == entries_spec(cfg0, src@, es.take(i as int)),
        decreases top.items.len() - i,
    {
        apply_entry(cfg, src, &top.items[i]);
        assert(es.take(i + 1).drop_last() == es.take(i as int));
        i = i + 1;
    }
    assert(es.take(i as int) == es);
}

/// Apply the variables a `.dir-locals.el` with text `content` sets for Emacs
/// Lisp, read as the reader reads it.
pub fn apply_dir_locals_content(content: &str, cfg: &mut FormatConfig)
    ensures
        exists|forms: Seq<Node>|
            crate::reader::reads_as(content@, crate::reader::dialect_name_spec(Dialect::EmacsLisp), false, forms)
                && *final(cfg) == dir_locals_spec(*old(cfg), content@, forms),
{
    let cs = chars_of(content);
    let forms = read(content, Dialect::EmacsLisp, false);
    apply_dir_locals_forms(cfg, cs.as_slice(), &forms);
}

// --- Resolution -----------------------------------------------------------------------

/// The EditorConfig files from the `i`-th on (nearest directory first, each
/// with the file's path relative to it): a field is set by the nearest file
/// that gives it, and a file saying `root = true` ends the search.
pub open spec fn ec_chain(
    cfg: FormatConfig,
    files: Seq<(String, String)>,
    i: int,
    style: bool,
    tab: bool,
    size: bool,
) -> FormatConfig
    decreases files.len() - i,
{
    if i < 0 || i >= files.len() {
        cfg
    } else {
        let r = editorconfig_props_spec(files[i].0@, vstd::utf8::encode_utf8(files[i].1@));
        let p = r.0;
        let c1 = if !style && p.indent_tabs is Some {
            FormatConfig { indent_tabs: p.indent_tabs->0, ..cfg }
        } else {
            cfg
        };
        let c2 = if !tab && p.tab_width is Some {
            FormatConfig { tab_width: p.tab_width->0, ..c1 }
        } else {
            c1
        };
        let c3 = if !size && p.indent_size is Some {
            FormatConfig { body_indent: p.indent_size->0, ..c2 }
        } else {
            c2
        };
        if r.1 {
            c3
        } else {
            ec_chain(
                c3,
                files,
                i + 1,
                style || p.indent_tabs is Some,
                tab || p.tab_width is Some,
                size || p.indent_size is Some,
            )
        }
    }
}

/// The `.dir-locals.el` files in order (root-most first), each read as the
/// matching entry of `fss`.
pub open spec fn dir_chain(cfg: FormatConfig, srcs: Seq<String>, fss: Seq<Seq<Node>>) -> FormatConfig
    decreases srcs.len(),
{
    if srcs.len() == 0 || fss.len() == 0 {
        cfg
    } else {
        dir_locals_spec(dir_chain(cfg, srcs.drop_last(), fss.drop_last()), srcs.last()@, fss.last())
    }
}

/// Resolve the config for a file whose content is `source`, applying sources
/// low-to-high so the higher-precedence one wins: defaults → EditorConfig →
/// dir-locals → file-locals. `editorconfigs` holds the `.editorconfig` files of
/// the file's ancestor directories, nearest first, each with the file's path
/// relative to that directory (forward slashes); `dir_locals` holds the
/// `.dir-locals.el` / `.dir-locals-2.el` files, root-most first.
pub fn resolve(source: &str, editorconfigs: &[(String, String)], dir_locals: &[String]) -> (r: FormatConfig)
    ensures
        exists|fss: Seq<Seq<Node>>|
            fss.len() == dir_locals@.len() && (forall|i: int|
                0 <= i < fss.len() ==> crate::reader::reads_as(
                    dir_locals@[i]@,
                    crate::reader::dialect_name_spec(Dialect::EmacsLisp),
                    false,
                    #[trigger] fss[i],
                )) && r == file_locals_spec(
                source@,
                dir_chain(
                    ec_chain(default_config(), editorconfigs@, 0, false, false, false),
                    dir_locals@,
                    fss,
                ),
            ),
{
    let mut cfg = FormatConfig::default();
    let ghost files = editorconfigs@;
    let mut style = false;
    let mut tab = false;
    let mut size = false;
    let mut i: usize = 0;
    while i < editorconfigs.len()
        invariant
            files == editorconfigs@,
            i <= files.len(),
            ec_chain(cfg, files, i as int, style, tab, size) == ec_chain(
                default_config(),
                files,
                0,
                false,
                false,
                false,
            ),
        decreases editorconfigs.len() - i,
    {
        let (props, is_root) = editorconfig_props(
            editorconfigs[i].0.as_str(),
            editorconfigs[i].1.as_str(),
        );
        if !style {
            if let Some(v) = props.indent_tabs {
                cfg.indent_tabs = v;
                style = true;
            }
        }
        if !tab {
            if let Some(v) = props.tab_width {
                cfg.tab_width = v;
                tab = true;
            }
        }
        if !size {
            if let Some(v) = props.indent_size {
                cfg.body_indent = v;
                size = true;
            }
        }
        if is_root {
            i = editorconfigs.len();
        } else {
            i = i + 1;
        }
    }
    let ghost start = cfg;
    assert(cfg == ec_chain(default_config(), files, 0, false, false, false));
    let ghost mut fss: Seq<Seq<Node>> = Seq::empty();
    let mut k: usize = 0;
    while k < dir_locals.len()
        invariant
            k <= dir_locals@.len(),
            fss.len() == k,
            forall|i: int|
                0 <= i < fss.len() ==> crate::reader::reads_as(
                    dir_locals@[i]@,
                    crate::reader::dialect_name_spec(Dialect::EmacsLisp),
                    false,
                    #[trigger] fss[i],
                ),
            cfg == dir_chain(start, dir_locals@.take(k as int), fss),
        decreases dir_locals.len() - k,
    {
        let content = dir_locals[k].as_str();
        let cs = chars_of(content);
        let forms = read(content, Dialect::EmacsLisp, false);
        apply_dir_locals_forms(&mut cfg, cs.as_slice(), &forms);
        proof {
            let prev = fss;
            fss = fss.push(forms@);
            assert(dir_locals@.take(k + 1).drop_last() == dir_locals@.take(k as int));
            assert(fss.drop_last() == prev);
            assert(dir_locals@.take(k + 1).last() == dir_locals@[k as int]);
        }
        k = k + 1;
    }
    assert(dir_locals@.take(k as int) == dir_locals@);
    apply_file_locals(source, &mut cfg);
    cfg
}


// --- Precedence -----------------------------------------------------------------------

/// Two applications of one layer, on `lo1` and on `lo2`, agree with its
/// precedence: each field is either the layer's own value, the same on both,
/// or, where the layer leaves it, the value from beneath on each.
pub open spec fn layer_wins(lo1: FormatConfig, hi1: FormatConfig, lo2: FormatConfig, hi2: FormatConfig) -> bool {
    &&& (hi1.indent_tabs == hi2.indent_tabs || (hi1.indent_tabs == lo1.indent_tabs && hi2.indent_tabs == lo2.indent_tabs))
    &&& (hi1.tab_width == hi2.tab_width || (hi1.tab_width == lo1.tab_width && hi2.tab_width == lo2.tab_width))
    &&& (hi1.body_indent == hi2.body_indent || (hi1.body_indent == lo1.body_indent && hi2.body_indent == lo2.body_indent))
    &&& (hi1.comment_column == hi2.comment_column || (hi1.comment_column == lo1.comment_column && hi2.comment_column == lo2.comment_column))
    &&& (hi1.nameless == hi2.nameless || (hi1.nameless == lo1.nameless && hi2.nameless == lo2.nameless))
    &&& (hi1.clojure_fixed_indent == hi2.clojure_fixed_indent || (hi1.clojure_fixed_indent == lo1.clojure_fixed_indent && hi2.clojure_fixed_indent == lo2.clojure_fixed_indent))
    &&& (hi1.islisp_eisl == hi2.islisp_eisl || (hi1.islisp_eisl == lo1.islisp_eisl && hi2.islisp_eisl == lo2.islisp_eisl))
}

proof fn lemma_layer_chain(
    a1: FormatConfig,
    b1: FormatConfig,
    c1: FormatConfig,
    a2: FormatConfig,
    b2: FormatConfig,
    c2: FormatConfig,
)
    requires
        layer_wins(a1, b1, a2, b2),
        layer_wins(b1, c1, b2, c2),
    ensures
        layer_wins(a1, c1, a2, c2),
{
}

proof fn lemma_kv_layer(c1: FormatConfig, c2: FormatConfig, part: Seq<char>)
    ensures
        layer_wins(c1, kv_spec(c1, part), c2, kv_spec(c2, part)),
{
}

proof fn lemma_parts_layer(c1: FormatConfig, c2: FormatConfig, parts: Seq<Seq<char>>)
    ensures
        layer_wins(c1, parts_spec(c1, parts), c2, parts_spec(c2, parts)),
    decreases parts.len(),
{
    if parts.len() > 0 {
        lemma_parts_layer(c1, c2, parts.drop_last());
        let m1 = parts_spec(c1, parts.drop_last());
        let m2 = parts_spec(c2, parts.drop_last());
        lemma_kv_layer(m1, m2, parts.last());
        lemma_layer_chain(c1, m1, parts_spec(c1, parts), c2, m2, parts_spec(c2, parts));
    }
}

proof fn lemma_footer_layer(
    c1: FormatConfig,
    c2: FormatConfig,
    lines: Seq<Seq<char>>,
    prefix: Seq<char>,
    i: int,
)
    ensures
        layer_wins(c1, footer_from(c1, lines, prefix, i), c2, footer_from(c2, lines, prefix, i)),
    decreases lines.len() - i,
{
    if 0 <= i < lines.len() {
        let body = footer_body(lines[i], prefix);
        if !has_prefix_at(body, 0, "End:"@) {
            let m1 = kv_spec(c1, body);
            let m2 = kv_spec(c2, body);
            lemma_kv_layer(c1, c2, body);
            lemma_footer_layer(m1, m2, lines, prefix, i + 1);
            lemma_layer_chain(
                c1,
                m1,
                footer_from(m1, lines, prefix, i + 1),
                c2,
                m2,
                footer_from(m2, lines, prefix, i + 1),
            );
        }
    }
}

/// File-local variables override every layer beneath them: a variable that
/// the file's `-*-` line or `Local Variables:` block sets has the same value
/// whatever the directory-local variables, EditorConfig and the defaults
/// gave, and one it does not set keeps the value from beneath.
pub proof fn law_file_locals_win(src: Seq<char>, c1: FormatConfig, c2: FormatConfig)
    ensures
        layer_wins(c1, file_locals_spec(src, c1), c2, file_locals_spec(src, c2)),
{
    let h1 = header_spec(src, c1);
    let h2 = header_spec(src, c2);
    match between_spec(header_line(src), "-*-"@, "-*-"@) {
        None => {},
        Some(inner) => if inner.contains(':') {
            lemma_parts_layer(c1, c2, split_char(inner, ';'));
        },
    }
    match rfind(src, "Local Variables:"@) {
        None => {},
        Some(m) => {
            let line_start = match rfind(src.subrange(0, m), seq!['\n']) {
                Some(i) => i + 1,
                None => 0,
            };
            lemma_footer_layer(
                h1,
                h2,
                rust_lines(src.subrange(m, src.len() as int)),
                src.subrange(line_start, m),
                1,
            );
        },
    }
    lemma_layer_chain(c1, h1, file_locals_spec(src, c1), c2, h2, file_locals_spec(src, c2));
}

proof fn lemma_set_var_layer(c1: FormatConfig, c2: FormatConfig, var: Seq<char>, val: Seq<char>)
    ensures
        layer_wins(c1, set_var_spec(c1, var, val), c2, set_var_spec(c2, var, val)),
{
}

proof fn lemma_pairs_layer(c1: FormatConfig, c2: FormatConfig, src: Seq<char>, ns: Seq<Node>)
    ensures
        layer_wins(c1, pairs_spec(c1, src, ns), c2, pairs_spec(c2, src, ns)),
    decreases ns.len(),
{
    if ns.len() > 0 {
        lemma_pairs_layer(c1, c2, src, ns.drop_last());
        let m1 = pairs_spec(c1, src, ns.drop_last());
        let m2 = pairs_spec(c2, src, ns.drop_last());
        match pair_spec(ns.last()) {
            Some((k, v)) => match (atom_text_spec(src, k), atom_text_spec(src, v)) {
                (Some(var), Some(val)) => lemma_set_var_layer(m1, m2, var, val),
                _ => {},
            },
            None => {},
        }
        lemma_layer_chain(c1, m1, pairs_spec(c1, src, ns), c2, m2, pairs_spec(c2, src, ns));
    }
}

proof fn lemma_entries_layer(c1: FormatConfig, c2: FormatConfig, src: Seq<char>, es: Seq<Node>)
    ensures
        layer_wins(c1, entries_spec(c1, src, es), c2, entries_spec(c2, src, es)),
    decreases es.len(),
{
    if es.len() > 0 {
        lemma_entries_layer(c1, c2, src, es.drop_last());
        let m1 = entries_spec(c1, src, es.drop_last());
        let m2 = entries_spec(c2, src, es.drop_last());
        let e = es.last();
        if !(e.shape != Shape::List || e.items@.len() == 0 || !mode_applies_spec(src, e.items@[0])) {
            match e.tail {
                Some(t) => if t.shape == Shape::List {
                    lemma_pairs_layer(m1, m2, src, t.items@);
                },
                None => lemma_pairs_layer(m1, m2, src, e.items@.subrange(1, e.items@.len() as int)),
            }
        }
        lemma_layer_chain(c1, m1, entries_spec(c1, src, es), c2, m2, entries_spec(c2, src, es));
    }
}

/// Directory-local variables override EditorConfig and the defaults: over
/// the same `.dir-locals.el` files, a variable that one of them sets has the
/// same value whatever lay beneath, and one none sets keeps it.
pub proof fn law_dir_locals_win(c1: FormatConfig, c2: FormatConfig, srcs: Seq<String>, fss: Seq<Seq<Node>>)
    ensures
        layer_wins(c1, dir_chain(c1, srcs, fss), c2, dir_chain(c2, srcs, fss)),
    decreases srcs.len(),
{
    if srcs.len() > 0 && fss.len() > 0 {
        law_dir_locals_win(c1, c2, srcs.drop_last(), fss.drop_last());
        let m1 = dir_chain(c1, srcs.drop_last(), fss.drop_last());
        let m2 = dir_chain(c2, srcs.drop_last(), fss.drop_last());
        let forms = fss.last();
        if !(forms.len() == 0 || forms[0].shape != Shape::List) {
            lemma_entries_layer(m1, m2, srcs.last()@, forms[0].items@);
        }
        lemma_layer_chain(c1, m1, dir_chain(c1, srcs, fss), c2, m2, dir_chain(c2, srcs, fss));
    }
}

/// EditorConfig overrides the defaults: over the same `.editorconfig` files,
/// a property that the nearest file giving it sets has the same value
/// whatever the starting config was, and one none gives keeps it.
pub proof fn law_editorconfig_wins(
    c1: FormatConfig,
    c2: FormatConfig,
    files: Seq<(String, String)>,
    i: int,
    style: bool,
    tab: bool,
    size: bool,
)
    ensures
        layer_wins(c1, ec_chain(c1, files, i, style, tab, size), c2, ec_chain(c2, files, i, style, tab, size)),
    decreases files.len() - i,
{
    if 0 <= i < files.len() {
        let r = editorconfig_props_spec(files[i].0@, vstd::utf8::encode_utf8(files[i].1@));
        let p = r.0;
        let step = |c: FormatConfig| {
            let a = if !style && p.indent_tabs is Some {
                FormatConfig { indent_tabs: p.indent_tabs->0, ..c }
            } else {
                c
            };
            let b = if !tab && p.tab_width is Some {
                FormatConfig { tab_width: p.tab_width->0, ..a }
            } else {
                a
            };
            if !size && p.indent_size is Some {
                FormatConfig { body_indent: p.indent_size->0, ..b }
            } else {
                b
            }
        };
        let m1 = step(c1);
        let m2 = step(c2);
        if !r.1 {
            let s2 = style || p.indent_tabs is Some;
            let t2 = tab || p.tab_width is Some;
            let z2 = size || p.indent_size is Some;
            law_editorconfig_wins(m1, m2, files, i + 1, s2, t2, z2);
            lemma_layer_chain(
                c1,
                m1,
                ec_chain(m1, files, i + 1, s2, t2, z2),
                c2,
                m2,
                ec_chain(m2, files, i + 1, s2, t2, z2),
            );
        }
    }
}

} // verus!
