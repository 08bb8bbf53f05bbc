//! The `symbol → indent spec` table the Emacs Lisp engine consults: the
//! standard specs `lispexp-emacs` bundles, with a file's own
//! `declare`/`put` specs (harvested by `lispexp`) layered on top.

use vstd::prelude::*;

verus! {

/// What the engine does with a symbol's `lisp-indent-function`.
#[derive(Debug, Clone, Copy, PartialEq, Eq, Structural)]
pub enum IndentRule {
    /// An integer spec: that many distinguished arguments, then a body.
    Number(u32),
    /// `defun`: every continuation line is a body line.
    Defun,
    /// A named indent function or any other spec: function-call alignment.
    Other,
}

#[verifier::external_type_specification]
#[verifier::external_body]
pub struct ExIndentTable(lispexp::indent::IndentTable);

/// What a `lispexp::indent::IndentTable` holds, by symbol.
pub uninterp spec fn indent_specs(t: lispexp::indent::IndentTable) -> Map<Seq<char>, IndentRule>;

/// What `lispexp_emacs::indent::bundled_table` returns for the dialect named
/// `dialect`.
pub uninterp spec fn bundled_specs(dialect: Seq<char>) -> Map<Seq<char>, IndentRule>;

/// What `lispexp::indent::harvest_indent_specs` finds in `source`.
pub uninterp spec fn harvested_specs(source: Seq<char>) -> Map<Seq<char>, IndentRule>;

/// `lispexp_emacs::indent::bundled_table` for the dialect named `dialect`
/// (an unknown name reads as the permissive Scheme superset, whose table is
/// empty).
#[verifier::external_body]
pub(crate) fn bundled_table(dialect: &str) -> (t: lispexp::indent::IndentTable)
    ensures
        indent_specs(t) == bundled_specs(dialect@),
{
    lispexp_emacs::indent::bundled_table(
        dialect.parse().unwrap_or(lispexp::Dialect::SchemeSuperset),
    )
}

/// `lispexp::indent::harvest_indent_specs`: the `(declare (indent …))` and
/// `(put 'SYM 'lisp-indent-function …)` specs of `source`.
#[verifier::external_body]
pub(crate) fn harvest(source: &str) -> (t: lispexp::indent::IndentTable)
    ensures
        indent_specs(t) == harvested_specs(source@),
{
    lispexp::indent::harvest_indent_specs(source)
}

/// `IndentTable::merge`: on a collision, `other`'s spec wins (the table is a
/// `HashMap` extended by `other`).
#[verifier::external_body]
pub(crate) fn merge(t: &mut lispexp::indent::IndentTable, other: lispexp::indent::IndentTable)
    ensures
        indent_specs(*final(t)) == indent_specs(*old(t)).union_prefer_right(indent_specs(other)),
{
    t.merge(other)
}

/// `IndentTable::get` for `symbol`, as an [`IndentRule`].
#[verifier::external_body]
pub(crate) fn lookup(t: &lispexp::indent::IndentTable, symbol: &str) -> (r: Option<IndentRule>)
    ensures
        r == (if indent_specs(*t).dom().contains(symbol@) {
            Some(indent_specs(*t)[symbol@])
        } else {
            None
        }),
{
    match t.get(symbol) {
        Some(lispexp::indent::IndentSpec::Number(n)) => Some(IndentRule::Number(*n)),
        Some(lispexp::indent::IndentSpec::Defun) => Some(IndentRule::Defun),
        Some(_) => Some(IndentRule::Other),
        None => None,
    }
}

/// The Emacs Lisp table for `source`: the bundled standard specs merged with
/// the file's own.
pub fn elisp_table(source: &str) -> (t: lispexp::indent::IndentTable)
    ensures
        indent_specs(t) == bundled_specs("emacs-lisp"@).union_prefer_right(
            harvested_specs(source@),
        ),
{
    let mut t = bundled_table("emacs-lisp");
    merge(&mut t, harvest(source));
    t
}

} // verus!
