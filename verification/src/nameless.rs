//! Modelling [Nameless](https://github.com/Malabarba/Nameless) for indentation.
//!
//! Nameless hides a package's namespace prefix, composing e.g. `php-foo` to
//! display as `:foo`. With `nameless-affect-indentation-and-filling` at its
//! default, Emacs measures alignment against that *displayed* width, so code
//! edited under Nameless is checked in with narrower alignment. This module
//! reports, for a symbol, how many columns its prefix collapses by; the
//! formatter subtracts that from every column measured to its right.

use vstd::prelude::*;

use crate::text::{chars_of, seq_utf8_len, string_of, string_of_range, utf8_len_seq};

verus! {

/// Displayed columns of a composed prefix whose glyph string is `dis_len`
/// characters: Nameless packs the glyphs to roughly half width, and Emacs's
/// `current-column` then measures `dis_len / 2 + 1`.
pub open spec fn display_cols_spec(dis_len: nat) -> nat {
    dis_len / 2 + 1
}

pub fn display_cols(dis_len: usize) -> (n: usize)
    ensures
        n == display_cols_spec(dis_len as nat),
{
    dis_len / 2 + 1
}

/// The composed prefixes that shrink column measurement for one file.
pub struct Nameless {
    /// `(region, display_cols)`: the matched text (namespace + separator) and
    /// the width it collapses to, e.g. `("php-", 1)`, `("font-lock-", 2)`.
    prefixes: Vec<(String, usize)>,
}

impl View for Nameless {
    type V = Seq<(Seq<char>, nat)>;

    closed spec fn view(&self) -> Seq<(Seq<char>, nat)> {
        Seq::new(self.prefixes@.len(), |i: int| (self.prefixes@[i].0@, self.prefixes@[i].1 as nat))
    }
}

/// Everything after the last `/` of `s`.
pub open spec fn basename(s: Seq<char>) -> Seq<char>
    decreases s.len(),
{
    if s.len() == 0 {
        s
    } else if s.last() == '/' {
        Seq::empty()
    } else {
        basename(s.drop_last()).push(s.last())
    }
}

/// `s` up to (excluding) its last `.`, or all of `s` when it has none.
pub open spec fn drop_extension(s: Seq<char>) -> Seq<char>
    decreases s.len(),
{
    if s.len() == 0 {
        s
    } else if s.last() == '.' {
        s.drop_last()
    } else if exists|k: int| 0 <= k < s.len() && s[k] == '.' {
        drop_extension(s.drop_last())
    } else {
        s
    }
}

/// `s` without the suffix `suf`, when it ends with it.
pub open spec fn strip_suffix(s: Seq<char>, suf: Seq<char>) -> Option<Seq<char>> {
    if suf.len() <= s.len() && s.subrange(s.len() - suf.len(), s.len() as int) == suf {
        Some(s.subrange(0, s.len() - suf.len()))
    } else {
        None
    }
}

/// Nameless's `nameless-current-name` discovery: strip a trailing
/// `(-mode)?(-tests?)?\.EXT` from the file's basename.
pub open spec fn current_name_spec(file_name: Seq<char>) -> Option<Seq<char>> {
    let s0 = drop_extension(basename(file_name));
    let s1 = match strip_suffix(s0, "-tests"@) {
        Some(t) => t,
        None => match strip_suffix(s0, "-test"@) {
            Some(t) => t,
            None => s0,
        },
    };
    let s2 = match strip_suffix(s1, "-mode"@) {
        Some(t) => t,
        None => s1,
    };
    if s2.len() == 0 {
        None
    } else {
        Some(s2)
    }
}

/// The prefixes Nameless composes for a file named `file_name`: the current
/// name followed by `-` (displayed as `:`), then the default global alias
/// `font-lock-` (displayed as `fl:`).
pub open spec fn prefixes_for(file_name: Seq<char>) -> Seq<(Seq<char>, nat)> {
    let alias = seq![("font-lock-"@, display_cols_spec(3))];
    match current_name_spec(file_name) {
        Some(name) => seq![(name + "-"@, display_cols_spec(1))] + alias,
        None => alias,
    }
}

/// The UTF-8 length of `s`, capped at `usize::MAX`.
pub open spec fn utf8_len_sat(s: Seq<char>) -> nat {
    if utf8_len_seq(s) <= usize::MAX {
        utf8_len_seq(s)
    } else {
        usize::MAX as nat
    }
}

/// The columns a symbol saves under `prefixes`: the first region that it
/// starts with and extends (by at least one character) collapses from its
/// UTF-8 length to its display width.
pub open spec fn saving_spec(prefixes: Seq<(Seq<char>, nat)>, symbol: Seq<char>) -> nat
    decreases prefixes.len(),
{
    if prefixes.len() == 0 {
        0
    } else {
        let (region, display) = prefixes[0];
        if symbol.len() > region.len() && symbol.subrange(0, region.len() as int) == region {
            if utf8_len_sat(region) >= display {
                (utf8_len_sat(region) - display) as nat
            } else {
                0
            }
        } else {
            saving_spec(prefixes.drop_first(), symbol)
        }
    }
}

fn last_index_of(s: &[char], c: char) -> (r: Option<usize>)
    ensures
        match r {
            Some(i) => i < s@.len() && s@[i as int] == c && forall|k: int|
                i < k < s@.len() ==> s@[k] != c,
            None => forall|k: int| 0 <= k < s@.len() ==> s@[k] != c,
        },
{
    let mut i = s.len();
    while i > 0
        invariant
            i <= s@.len(),
            forall|k: int| i <= k < s@.len() ==> s@[k] != c,
        decreases i,
    {
        if s[i - 1] == c {
            return Some(i - 1);
        }
        i = i - 1;
    }
    None
}

proof fn lemma_basename(s: Seq<char>, i: int)
    requires
        0 <= i < s.len(),
        s[i] == '/',
        forall|k: int| i < k < s.len() ==> s[k] != '/',
    ensures
        basename(s) == s.subrange(i + 1, s.len() as int),
    decreases s.len(),
{
    if s.last() != '/' {
        lemma_basename(s.drop_last(), i);
        assert(s.subrange(i + 1, s.len() - 1).push(s.last()) == s.subrange(i + 1, s.len() as int));
    }
}

proof fn lemma_basename_none(s: Seq<char>)
    requires
        forall|k: int| 0 <= k < s.len() ==> s[k] != '/',
    ensures
        basename(s) == s,
    decreases s.len(),
{
    if s.len() > 0 {
        lemma_basename_none(s.drop_last());
        assert(s.drop_last().push(s.last()) == s);
    }
}

proof fn lemma_drop_extension(s: Seq<char>, i: int)
    requires
        0 <= i < s.len(),
        s[i] == '.',
        forall|k: int| i < k < s.len() ==> s[k] != '.',
    ensures
        drop_extension(s) == s.subrange(0, i),
    decreases s.len(),
{
    if s.last() != '.' {
        lemma_drop_extension(s.drop_last(), i);
        assert(s.drop_last().subrange(0, i) == s.subrange(0, i));
    } else {
        assert(i == s.len() - 1);
    }
}

fn strip_suffix_len(s: &[char], len: usize, suf: &str) -> (r: Option<usize>)
    requires
        len <= s@.len(),
    ensures
        match r {
            Some(n) => strip_suffix(s@.subrange(0, len as int), suf@) == Some(
                s@.subrange(0, n as int),
            ) && n <= len,
            None => strip_suffix(s@.subrange(0, len as int), suf@) is None,
        },
{
    let sc = chars_of(suf);
    if sc.len() > len {
        return None;
    }
    let from = len - sc.len();
    let mut k: usize = 0;
    while k < sc.len()
        invariant
            from + sc@.len() == len <= s@.len(),
            sc@ == suf@,
            k <= sc@.len(),
            forall|j: int| 0 <= j < k ==> s@[from + j] == sc@[j],
        decreases sc.len() - k,
    {
        if s[from + k] != sc[k] {
            let ghost kk = k as int;
            assert(s@.subrange(0, len as int).subrange(from as int, len as int)[kk] != sc@[kk]);
            assert(s@.subrange(0, len as int).subrange(from as int, len as int) != suf@);
            return None;
        }
        k = k + 1;
    }
    assert(s@.subrange(0, len as int).subrange(from as int, len as int) == sc@);
    assert(s@.subrange(0, len as int).subrange(0, from as int) == s@.subrange(0, from as int));
    Some(from)
}

/// Nameless's `nameless-current-name` discovery: strip a trailing
/// `(-mode)?(-tests?)?\.EXT` from the file's basename. `php-mode.el` → `php`,
/// `php-project.el` → `php-project`, `foo-mode-tests.el` → `foo`.
pub fn current_name(file_name: &str) -> (r: Option<String>)
    ensures
        match r {
            Some(s) => current_name_spec(file_name@) == Some(s@),
            None => current_name_spec(file_name@) is None,
        },
{
    let all = chars_of(file_name);
    let from = match last_index_of(all.as_slice(), '/') {
        Some(i) => {
            proof {
                lemma_basename(all@, i as int);
            }
            assert(i < all.len());
            i + 1
        },
        None => {
            proof {
                lemma_basename_none(all@);
            }
            0
        },
    };
    let ghost base = basename(all@);
    let base_v: Vec<char> = {
        let mut v: Vec<char> = Vec::new();
        let mut k = from;
        while k < all.len()
            invariant
                from <= k <= all@.len(),
                v@ == all@.subrange(from as int, k as int),
            decreases all.len() - k,
        {
            v.push(all[k]);
            assert(all@.subrange(from as int, k + 1) == all@.subrange(from as int, k as int).push(
                all@[k as int],
            ));
            k = k + 1;
        }
        v
    };
    assert(base_v@ == base);
    let mut len = match last_index_of(base_v.as_slice(), '.') {
        Some(i) => {
            proof {
                lemma_drop_extension(base_v@, i as int);
            }
            i
        },
        None => {
            assert(!(exists|k: int| 0 <= k < base_v@.len() && base_v@[k] == '.'));
            base_v.len()
        },
    };
    assert(base_v@.subrange(0, len as int) == drop_extension(base)) by {
        if len == base_v@.len() {
            assert(base_v@.subrange(0, len as int) == base_v@);
        }
    }
    match strip_suffix_len(base_v.as_slice(), len, "-tests") {
        Some(n) => {
            len = n;
        },
        None => match strip_suffix_len(base_v.as_slice(), len, "-test") {
            Some(n) => {
                len = n;
            },
            None => {},
        },
    }
    match strip_suffix_len(base_v.as_slice(), len, "-mode") {
        Some(n) => {
            len = n;
        },
        None => {},
    }
    if len == 0 {
        None
    } else {
        Some(string_of_range(base_v.as_slice(), 0, len))
    }
}

/// `s` followed by `-`.
fn with_dash(s: &String) -> (r: String)
    ensures
        r@ == s@ + "-"@,
{
    let mut cs = chars_of(s.as_str());
    cs.push('-');
    proof {
        reveal_strlit("-");
    }
    assert(cs@ == s@ + "-"@);
    string_of(cs.as_slice())
}

impl Nameless {
    /// Emulation for a file named `file_name`, with the default aliases.
    /// `nameless-prefix` is `:` (1 column) and `nameless-separator` is `-`.
    pub fn for_file(file_name: &str) -> (r: Self)
        ensures
            r@ == prefixes_for(file_name@),
    {
        let mut prefixes: Vec<(String, usize)> = Vec::new();
        let name = current_name(file_name);
        match &name {
            Some(n) => {
                prefixes.push((with_dash(n), display_cols(1)));
            },
            None => {},
        }
        prefixes.push((String::from_str("font-lock-"), display_cols(2 + 1)));
        let r = Nameless { prefixes };
        assert(r@ == prefixes_for(file_name@));
        r
    }

    /// Columns saved by composing `symbol`: nonzero only when it begins with a
    /// composed prefix and has at least one character after it (Nameless's
    /// regexp requires a symbol constituent after the separator).
    pub fn saving(&self, symbol: &str) -> (n: usize)
        ensures
            n == saving_spec(self@, symbol@),
    {
        let sym = chars_of(symbol);
        let mut i: usize = 0;
        assert(self@.subrange(0, self@.len() as int) == self@);
        while i < self.prefixes.len()
            invariant
                i <= self@.len(),
                sym@ == symbol@,
                self@.len() == self.prefixes@.len(),
                saving_spec(self@, symbol@) == saving_spec(self@.subrange(i as int, self@.len() as int), symbol@),
            decreases self.prefixes.len() - i,
        {
            let region = chars_of(self.prefixes[i].0.as_str());
            let display = self.prefixes[i].1;
            let ghost rest = self@.subrange(i as int, self@.len() as int);
            assert(rest[0] == self@[i as int]);
            assert(region@ == rest[0].0);
            assert(display == rest[0].1);
            assert(rest.drop_first() == self@.subrange(i + 1, self@.len() as int));
            if sym.len() > region.len() && crate::text::starts_with_at(sym.as_slice(), 0, region.as_slice()) {
                let w = seq_utf8_len(region.as_slice());
                return w.saturating_sub(display);
            }
            i = i + 1;
        }
        0
    }
}


proof fn lemma_ascii_utf8_len(s: Seq<char>)
    requires
        forall|k: int| 0 <= k < s.len() ==> (s[k] as u32) < 0x80,
    ensures
        utf8_len_seq(s) == s.len(),
    decreases s.len(),
{
    if s.len() > 0 {
        lemma_ascii_utf8_len(s.drop_last());
    }
}

/// The default global alias: under every file's prefixes, a symbol that
/// extends `font-lock-` (ten bytes, shown as the two-column `fl:`) saves
/// eight columns, unless the file's own current-name prefix claims the
/// symbol first.
pub proof fn law_default_alias_saves_eight(file_name: Seq<char>, symbol: Seq<char>)
    requires
        symbol.len() > 10,
        symbol.subrange(0, 10) == "font-lock-"@,
        match current_name_spec(file_name) {
            Some(n) => !(symbol.len() > n.len() + 1 && symbol.subrange(0, n.len() as int + 1) == n + "-"@),
            None => true,
        },
    ensures
        saving_spec(prefixes_for(file_name), symbol) == 8,
{
    reveal_strlit("font-lock-");
    reveal_strlit("-");
    let fl = "font-lock-"@;
    assert(fl.len() == 10);
    lemma_ascii_utf8_len(fl);
    let alias = seq![(fl, display_cols_spec(3))];
    assert(saving_spec(alias, symbol) == 8) by {
        assert(alias.drop_first().len() == 0);
    }
    match current_name_spec(file_name) {
        Some(n) => {
            let ps = seq![(n + "-"@, display_cols_spec(1))] + alias;
            assert(ps[0] == (n + "-"@, display_cols_spec(1)));
            assert(ps.drop_first() == alias);
        },
        None => {},
    }
}

} // verus!
