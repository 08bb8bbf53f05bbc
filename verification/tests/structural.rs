use lisplens::edit::splice as apply;
use lisplens::reader::{read, Dialect, Node};
use lisplens::structural::{
    barf_backward, barf_forward, join, raise, rename, slurp_backward, slurp_forward, source_map,
    splice, split, wrap,
};

fn forms(src: &str) -> Vec<Node> {
    read(src, Dialect::Scheme, false)
}

#[test]
fn wrap_encloses_a_node_with_a_prefix() {
    let f = forms("x");
    let (cs, bt) = source_map("x");
    let edits = wrap(&cs, &bt, &f[0], "when cond");
    assert_eq!(apply("x", edits).unwrap(), "(when cond x)");
}

#[test]
fn wrap_with_empty_prefix_is_bare_parens() {
    let f = forms("x");
    let (cs, bt) = source_map("x");
    let edits = wrap(&cs, &bt, &f[0], "");
    assert_eq!(apply("x", edits).unwrap(), "(x)");
}

#[test]
fn raise_replaces_the_parent_and_drops_siblings() {
    let src = "(when cond x)";
    let f = forms(src);
    let (cs, bt) = source_map(src);
    let parent = &f[0];
    let child = &parent.items[2]; // `x`
    assert_eq!(apply(src, raise(&cs, &bt, parent, child)).unwrap(), "x");
}

#[test]
fn splice_removes_delimiters_keeping_contents() {
    let src = "(foo (bar baz) quux)";
    let f = forms(src);
    let (cs, bt) = source_map(src);
    let inner = &f[0].items[1]; // `(bar baz)`
    let edits = splice(&cs, &bt, inner).unwrap();
    assert_eq!(apply(src, edits).unwrap(), "(foo bar baz quux)");
}

#[test]
fn splice_of_a_non_list_is_none() {
    let f = forms("sym");
    let (cs, bt) = source_map("sym");
    assert!(splice(&cs, &bt, &f[0]).is_none());
}

#[test]
fn splice_of_a_set_drops_both_opening_characters() {
    let src = "(f #{1 2})";
    let f = read(src, Dialect::Clojure, false);
    let (cs, bt) = source_map(src);
    let set = &f[0].items[1];
    assert_eq!(apply(src, splice(&cs, &bt, set).unwrap()).unwrap(), "(f 1 2)");
}

#[test]
fn slurp_and_barf_move_a_delimiter_over_one_element() {
    let src = "(foo (bar) baz)";
    let f = forms(src);
    let (cs, bt) = source_map(src);
    let list = &f[0].items[1];
    let next = &f[0].items[2];
    let e = slurp_forward(&cs, &bt, list, next).unwrap();
    assert_eq!(apply(src, e).unwrap(), "(foo (bar baz))");

    let src = "(foo bar (baz))";
    let f = forms(src);
    let (cs, bt) = source_map(src);
    let e = slurp_backward(&cs, &bt, &f[0].items[2], &f[0].items[1]).unwrap();
    assert_eq!(apply(src, e).unwrap(), "(foo (bar baz))");

    let src = "(foo (bar baz))";
    let f = forms(src);
    let (cs, bt) = source_map(src);
    let e = barf_forward(&cs, &bt, &f[0].items[1]).unwrap();
    assert_eq!(apply(src, e).unwrap(), "(foo (bar) baz)");
    let e = barf_backward(&cs, &bt, &f[0].items[1]).unwrap();
    assert_eq!(apply(src, e).unwrap(), "(foo bar (baz))");
}

#[test]
fn barf_of_an_empty_list_is_none() {
    let src = "(a ())";
    let f = forms(src);
    let (cs, bt) = source_map(src);
    assert!(barf_forward(&cs, &bt, &f[0].items[1]).is_none());
    assert!(barf_backward(&cs, &bt, &f[0].items[1]).is_none());
}

#[test]
fn split_and_join_are_inverse_on_a_pair() {
    let src = "[a b]";
    let f = read(src, Dialect::Clojure, false);
    let (cs, bt) = source_map(src);
    let out = apply(src, split(&cs, &bt, &f[0], 0).unwrap()).unwrap();
    assert_eq!(out, "[a] [b]");
    assert!(split(&cs, &bt, &f[0], 1).is_none());

    let f2 = read(&out, Dialect::Clojure, false);
    let (cs2, bt2) = source_map(&out);
    let back = apply(&out, join(&cs2, &bt2, &f2[0], &f2[1]).unwrap()).unwrap();
    assert_eq!(back, "[a b]");
}

#[test]
fn rename_touches_only_exact_symbols_in_the_subtree() {
    let src = "(define (f x) (+ x x-1 \"x\" 'x))";
    let f = forms(src);
    let (cs, bt) = source_map(src);
    let e = rename(&cs, &bt, &f[0], "x", "y");
    assert_eq!(e.len(), 3);
    assert_eq!(apply(src, e).unwrap(), "(define (f y) (+ y x-1 \"x\" 'y))");
}

#[test]
fn edits_are_byte_ranges_past_multibyte_text() {
    let src = "(\"é\" x)";
    let f = forms(src);
    let (cs, bt) = source_map(src);
    let e = wrap(&cs, &bt, &f[0].items[1], "g");
    assert_eq!(e[0].range, 6..6);
    assert_eq!(apply(src, e).unwrap(), "(\"é\" (g x))");
}
