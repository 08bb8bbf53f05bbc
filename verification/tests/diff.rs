use lisplens::diff::{diff_files, diff_source_forms, form_diff_text, lcs_matches, one_line, ChildDiff, FormDiff};
use lisplens::reader::{read, Dialect};
use lisplens::sexpr::struct_eq;

fn only_child(diff: &FormDiff) -> &ChildDiff {
    match diff {
        FormDiff::Descend { children, .. } => {
            assert_eq!(children.len(), 1, "expected exactly one changed child");
            &children[0]
        }
        FormDiff::Replace { .. } => panic!("expected a Descend, got a Replace"),
    }
}

fn diff2(old: &str, new: &str) -> FormDiff {
    diff_source_forms(old, new, Dialect::EmacsLisp).expect("forms should differ")
}

#[test]
fn formatting_modulo_is_no_diff() {
    assert!(diff_source_forms("(f  a\n   b)", "(f a b)", Dialect::EmacsLisp).is_none());
}

#[test]
fn head_change_is_a_child_zero_replace() {
    let d = diff2("(when c a)", "(unless c a)");
    match only_child(&d) {
        ChildDiff::Paired { index, diff } => {
            assert_eq!(*index, 0);
            assert!(matches!(diff, FormDiff::Replace { .. }));
        }
        other => panic!("expected a paired child-0 replace, got {other:?}"),
    }
}

#[test]
fn localized_edit_stays_local() {
    let d = diff2("(f a b c)", "(f a x c)");
    match only_child(&d) {
        ChildDiff::Paired { index, diff } => {
            assert_eq!(*index, 2);
            assert!(matches!(diff, FormDiff::Replace { .. }));
        }
        other => panic!("expected one paired replace at index 2, got {other:?}"),
    }
}

#[test]
fn insertion_is_one_added_child() {
    let d = diff2("(f a b)", "(f a z b)");
    match only_child(&d) {
        ChildDiff::Added { index, frag } => {
            assert_eq!(*index, 2);
            assert_eq!(frag.text, "z");
        }
        other => panic!("expected one added child, got {other:?}"),
    }
}

#[test]
fn delimiter_mismatch_is_a_replace() {
    let d = diff2("(a b)", "[a b]");
    assert!(
        matches!(d, FormDiff::Replace { .. }),
        "different delimiters must not recurse"
    );
}

#[test]
fn reorder_is_add_remove_or_change_not_empty() {
    let d = diff_source_forms("(f a b)", "(f b a)", Dialect::EmacsLisp);
    assert!(d.is_some(), "a reorder is a (non-move) change, not empty");
}

#[test]
fn removal_is_reported_at_the_new_side_cursor() {
    let d = diff2("(f a b c)", "(f a c)");
    match only_child(&d) {
        ChildDiff::Removed { index, frag } => {
            assert_eq!(*index, 2);
            assert_eq!(frag.text, "b");
            assert_eq!(frag.line, 1);
        }
        other => panic!("expected one removed child, got {other:?}"),
    }
}

#[test]
fn quote_notation_and_comments() {
    // Comments and spacing never count; shorthand and longhand quotes differ.
    assert!(diff_source_forms("(f 'x) ; note", "(f\n 'x)", Dialect::EmacsLisp).is_none());
    assert!(diff_source_forms("(f 'x)", "(f (quote x))", Dialect::EmacsLisp).is_some());
    // Descending through a quote to the changed datum.
    let d = diff2("'(a b)", "'(a c)");
    match &d {
        FormDiff::Descend { label, child_count, children } => {
            assert_eq!(label, "prefix");
            assert_eq!(*child_count, 1);
            assert!(matches!(children[0], ChildDiff::Paired { index: 0, .. }));
        }
        other => panic!("expected a descend through the quote, got {other:?}"),
    }
}

#[test]
fn text_rendering_elides_unchanged_siblings() {
    let d = diff2("(f a b c d)", "(f a x c d)");
    assert_eq!(form_diff_text(&d), "  (f\n    …\n    ~ b ⇒ x\n    …\n  )\n");
    let d = diff2("(f a)", "(f a z)");
    assert_eq!(form_diff_text(&d), "  (f\n    …\n    + z\n  )\n");
    let d = diff2("a", "b");
    assert_eq!(form_diff_text(&d), "  ~ a ⇒ b\n");
}

#[test]
fn previews_collapse_whitespace_and_cut_at_sixty() {
    assert_eq!(one_line(&"  (a\n\t b)  ".chars().collect::<Vec<_>>()), "(a b)");
    let long: String = "x ".repeat(40);
    let p = one_line(&long.chars().collect::<Vec<_>>());
    assert_eq!(p.chars().count(), 61);
    assert!(p.ends_with('…'));
}

#[test]
fn lcs_pins_the_common_children() {
    let a = read("(f a b c)", Dialect::Scheme, false);
    let b = read("(f b c d)", Dialect::Scheme, false);
    let pairs = lcs_matches(&a[0].items, &b[0].items);
    assert_eq!(pairs, vec![(0, 0), (2, 1), (3, 2)]);
}

#[test]
fn struct_eq_ignores_layout_but_not_text() {
    let a = read("(f  x\n y)", Dialect::Scheme, false);
    let b = read("(f x y)", Dialect::Scheme, false);
    let c = read("(f x Y)", Dialect::Scheme, false);
    assert!(struct_eq(&a[0], &b[0]));
    assert!(!struct_eq(&a[0], &c[0]));
}

use lisplens::diff::{diff_text, FileDiff, UnitDiff, UnitStatus};

fn unit(kind: &str, name: &str, sig: Option<&str>, status: UnitStatus, line: u32, hash: &str) -> UnitDiff {
    UnitDiff {
        kind: kind.to_string(),
        name: name.to_string(),
        signature: sig.map(|s| s.to_string()),
        status,
        line,
        hash: hash.to_string(),
    }
}

#[test]
fn diff_text_groups_and_sorts_by_line() {
    let d = FileDiff {
        units: vec![
            unit("defun", "b", None, UnitStatus::Changed, 9, "bbbb"),
            unit("defvar", "x", None, UnitStatus::Added, 3, "cccc"),
            unit("defun", "a", None, UnitStatus::Changed, 2, "aaaa"),
            unit("cl-defmethod", "area", Some(":around (circle)"), UnitStatus::Removed, 40, "dddd"),
        ],
        other_forms_changed: true,
    };
    assert_eq!(
        diff_text(&d),
        "changed:\n  ~ defun a  2:aaaa\n  ~ defun b  9:bbbb\n\
         added:\n  + defvar x  3:cccc\n\
         removed:\n  - cl-defmethod area :around (circle)  40:dddd\n\
         other:\n  ! other top-level forms changed\n"
    );
    assert!(!d.is_empty());
}

#[test]
fn an_empty_file_diff_renders_nothing() {
    let d = FileDiff { units: vec![], other_forms_changed: false };
    assert!(d.is_empty());
    assert_eq!(diff_text(&d), "");
    let d = FileDiff { units: vec![], other_forms_changed: true };
    assert!(!d.is_empty());
}

#[test]
fn lcs_anchors_pair_every_kept_child_in_order() {
    let old = lisplens::reader::read("(a x b c)", lisplens::reader::Dialect::EmacsLisp, false);
    let new = lisplens::reader::read("(a b y c)", lisplens::reader::Dialect::EmacsLisp, false);
    let m = lisplens::diff::lcs_matches(&old[0].items, &new[0].items);
    assert_eq!(m, vec![(0, 0), (2, 1), (3, 3)]);
}

fn statuses(diff: &lisplens::diff::FileDiff, status: lisplens::diff::UnitStatus) -> Vec<&str> {
    let mut names: Vec<&str> = diff.units.iter().filter(|u| u.status == status).map(|u| u.name.as_str()).collect();
    names.sort_unstable();
    names
}

#[test]
fn added_removed_changed_unchanged() {
    let old = "(defun keep () 1)\n(defun gone () 2)\n(defun edit () 3)\n";
    let new = "(defun keep () 1)\n(defun edit () 30)\n(defun fresh () 4)\n";
    let d = diff_files(old, new, Dialect::EmacsLisp);
    assert_eq!(statuses(&d, UnitStatus::Added), ["fresh"]);
    assert_eq!(statuses(&d, UnitStatus::Removed), ["gone"]);
    assert_eq!(statuses(&d, UnitStatus::Changed), ["edit"]);
    assert_eq!(d.units.len(), 3);
    assert!(!d.other_forms_changed);
}

#[test]
fn whitespace_and_comment_only_is_unchanged() {
    let old = "(defun f (x) (+ x 1))\n";
    let new = "(defun f (x)\n  ;; a new comment\n  (+   x   1))\n";
    let d = lisplens::diff::diff_files(old, new, Dialect::EmacsLisp);
    assert!(d.is_empty(), "formatting/comment churn must not be a change");
}

#[test]
fn rename_is_add_plus_remove() {
    let old = "(defun old-name (x) (* x 2))\n";
    let new = "(defun new-name (x) (* x 2))\n";
    let d = diff_files(old, new, Dialect::EmacsLisp);
    assert_eq!(statuses(&d, UnitStatus::Removed), ["old-name"]);
    assert_eq!(statuses(&d, UnitStatus::Added), ["new-name"]);
    assert_eq!(statuses(&d, UnitStatus::Changed), Vec::<&str>::new());
}

#[test]
fn other_top_level_forms_summary() {
    let old = "(require 'foo)\n(defun f () 1)\n";
    let new = "(require 'bar)\n(defun f () 1)\n";
    let d = lisplens::diff::diff_files(old, new, Dialect::EmacsLisp);
    assert!(d.units.is_empty(), "no definition changed");
    assert!(d.other_forms_changed, "the require form changed");
}

#[test]
fn identical_files_are_empty() {
    let src = "(defun f (x) (+ x 1))\n(defvar y 2)\n";
    assert!(lisplens::diff::diff_files(src, src, Dialect::EmacsLisp).is_empty());
}

#[test]
fn duplicate_key_forward_decl_then_real_is_stable() {
    let src = "(defvar c-x)\n(defun mid () 1)\n(defvar c-x nil)\n";
    assert!(diff_files(src, src, Dialect::EmacsLisp).is_empty());
    let new = "(defvar c-x)\n(defun mid () 1)\n(defvar c-x 42)\n";
    let d = diff_files(src, new, Dialect::EmacsLisp);
    assert_eq!(statuses(&d, UnitStatus::Changed), ["c-x"]);
    assert_eq!(d.units.len(), 1);
    let dropped = "(defun mid () 1)\n(defvar c-x nil)\n";
    let d = diff_files(src, dropped, Dialect::EmacsLisp);
    assert_eq!(statuses(&d, UnitStatus::Removed), ["c-x"]);
    assert_eq!(d.units.len(), 1);
}

#[test]
fn file_diff_units_come_changed_then_added_then_removed_with_anchors() {
    let old = "(defun b () 1)\n(defun a () 2)\n";
    let new = "(defun a () 3)\n(defun c () 4)\n";
    let d = diff_files(old, new, Dialect::EmacsLisp);
    let st: Vec<UnitStatus> = d.units.iter().map(|u| u.status).collect();
    assert_eq!(st, vec![UnitStatus::Changed, UnitStatus::Added, UnitStatus::Removed]);
    assert_eq!(d.units[0].line, 1);
    assert_eq!(d.units[0].hash, lisplens::hash::anchor_hash(b"(defun a () 3)"));
    assert_eq!(d.units[2].line, 1);
    let text = diff_text(&d);
    assert!(text.starts_with("changed:\n  ~ defun a  1:"), "{text}");
}

use lisplens::diff::{deep_html, deep_text, diff_files_deep, diff_html, form_diff_html};

/// The padding style of each depth, as the command line computes it.
fn pads() -> Vec<String> {
    (0..64).map(|d| format!("padding-left:{}em", d as f32 * 1.4)).collect()
}

#[test]
fn same_name_methods_keyed_by_dispatch() {
    let old = "(cl-defmethod area ((s square)) (* s s))\n(cl-defmethod area ((c circle)) (* 3 c c))\n";
    let new = "(cl-defmethod area ((s square)) (* s s s))\n(cl-defmethod area ((c circle)) (* 3 c c))\n";
    let d = diff_files(old, new, Dialect::EmacsLisp);
    assert_eq!(statuses(&d, UnitStatus::Changed), ["area"]);
    assert_eq!(d.units.len(), 1);
    let changed = &d.units[0];
    assert_eq!(changed.signature.as_deref(), Some("(square)"));
}

#[test]
fn deep_diff_of_a_changed_defun() {
    let old = "(defun g (x) (+ x 1))\n";
    let new = "(defun g (x) (+ x 2))\n";
    let deep = diff_files_deep(old, new, Dialect::EmacsLisp, None, false);
    assert_eq!(deep.changed.len(), 1);
    assert_eq!(deep.changed[0].name, "g");
    let text = form_diff_text(&deep.changed[0].diff);
    assert!(text.contains("1 ⇒ 2"), "rendered tree:\n{text}");
}

#[test]
fn deep_diff_unit_filter() {
    let old = "(defun a () 1)\n(defun b () 2)\n";
    let new = "(defun a () 10)\n(defun b () 20)\n";
    assert_eq!(diff_files_deep(old, new, Dialect::EmacsLisp, None, false).changed.len(), 2);
    let only_b = diff_files_deep(old, new, Dialect::EmacsLisp, Some("b"), false);
    assert_eq!(only_b.changed.len(), 1);
    assert_eq!(only_b.changed[0].name, "b");
}

#[test]
fn deep_diff_renders_added_and_removed_bodies() {
    let old = "(defun gone (x) (* x 2))\n";
    let new = "(defun fresh (n) (let ((r (+ n 1))) (message \"%s\" r)))\n";
    let deep = diff_files_deep(old, new, Dialect::EmacsLisp, None, false);
    assert!(deep.changed.is_empty());
    assert_eq!(deep.added.len(), 1);
    assert_eq!(deep.removed.len(), 1);
    let added = &deep.added[0];
    assert_eq!(added.name, "fresh");
    assert!(added.lens.len() > 1, "added definition should carry its inner Lens");
    let text = deep_text(&deep);
    assert!(text.contains("+ defun fresh"), "text:\n{text}");
    assert!(text.contains("- defun gone"), "text:\n{text}");
    assert!(text.contains("message"), "added body preview missing:\n{text}");
    assert!(added.lens.iter().all(|n| n.hash.len() == 4));
    assert!(added.verbatim.is_none());
}

#[test]
fn deep_diff_verbose_renders_full_verbatim_bodies() {
    let old = "(defun gone () nil)\n";
    let new = "\
(defun fresh (n)
  \"A long docstring past the sixty-character preview boundary END-MARKER-ZZZ.\"
  (message \"%s\" n))
";
    let terse = diff_files_deep(old, new, Dialect::EmacsLisp, None, false);
    assert!(!deep_text(&terse).contains("END-MARKER-ZZZ"), "the terse preview should truncate the long docstring");
    let deep = diff_files_deep(old, new, Dialect::EmacsLisp, None, true);
    let added = &deep.added[0];
    let verbatim = added.verbatim.as_deref().expect("verbose attaches verbatim");
    assert!(verbatim.contains("END-MARKER-ZZZ"));
    assert!(verbatim.contains("(message \"%s\" n)"));
    let text = deep_text(&deep);
    assert!(text.contains("+ defun fresh"), "text:\n{text}");
    assert!(text.contains("END-MARKER-ZZZ"), "verbatim body missing:\n{text}");
    assert!(deep_html(&deep, &pads()).contains("END-MARKER-ZZZ"));
    assert!(!added.lens.is_empty());
}

#[test]
fn html_is_self_contained_and_escaped() {
    let d = diff_source_forms("(f x y)", "(f c-fwd-<>-a a&b)", Dialect::EmacsLisp).unwrap();
    let html = form_diff_html(&d, &pads());
    assert!(html.starts_with("<!doctype html>"), "not a full page");
    assert!(!html.contains("http://") && !html.contains("https://"));
    assert!(!html.contains("<script") && !html.contains("<link") && !html.contains(" src="));
    assert!(html.contains("c-fwd-&lt;&gt;-a"), "angle brackets must be escaped");
    assert!(!html.contains("c-fwd-<>-a"), "raw `<>` would break the markup");
    assert!(html.contains("a&amp;b"), "the `&` must be escaped");
}

#[test]
fn html_map_marks_added_removed_changed() {
    let old = "(defun keep () 1)\n(defun gone () 2)\n(defun edit () 3)\n";
    let new = "(defun keep () 1)\n(defun edit () 30)\n(defun fresh () 4)\n";
    let html = diff_html(&diff_files(old, new, Dialect::EmacsLisp));
    assert!(html.starts_with("<!doctype html>"));
    for name in ["edit", "fresh", "gone"] {
        assert!(html.contains(name), "missing unit {name} in map html");
    }
    assert!(html.contains("1 changed") && html.contains("1 added") && html.contains("1 removed"));
}

#[test]
fn deep_diff_unit_filter_matches_added() {
    let old = "(defun keep () 1)\n";
    let new = "(defun keep () 1)\n(defun brand-new () 42)\n";
    let only = diff_files_deep(old, new, Dialect::EmacsLisp, Some("brand-new"), false);
    assert!(only.changed.is_empty() && only.removed.is_empty());
    assert_eq!(only.added.len(), 1);
    assert_eq!(only.added[0].name, "brand-new");
}

#[test]
fn deep_diff_exact_text_and_lens() {
    let old = "(defun gone (x) x)\n";
    let new = "(defun g () 1)\n";
    let deep = diff_files_deep(old, new, Dialect::EmacsLisp, None, false);
    let lens = &deep.added[0].lens;
    let previews: Vec<(usize, &str)> = lens.iter().map(|e| (e.depth, e.preview.as_str())).collect();
    assert_eq!(previews, vec![(0, "(defun g () 1)"), (1, "defun"), (1, "g"), (1, "()"), (1, "1")]);
    let text = deep_text(&deep);
    let h = &deep.added[0].hash;
    assert!(text.starts_with(&format!("+ defun g  1:{h}\n  ")), "text:\n{text}");
    assert!(text.contains("- defun gone  1:"));
    assert!(lisplens::diff::DeepDiff { changed: vec![], added: vec![], removed: vec![] }.is_empty());
    assert!(!deep.is_empty());
}

#[test]
fn method_signature_carries_qualifiers() {
    let old = "(cl-defmethod area :around ((c circle)) 1)\n";
    let new = "(cl-defmethod area :around ((c circle)) 2)\n";
    let d = diff_files(old, new, Dialect::EmacsLisp);
    assert_eq!(d.units.len(), 1);
    assert_eq!(d.units[0].signature.as_deref(), Some(":around (circle)"));
}

#[test]
fn diff_text_is_empty_exactly_when_nothing_changed() {
    let src = "(defun f () 1)\n(require 'x)\n";
    let d = diff_files(src, src, Dialect::EmacsLisp);
    assert_eq!(diff_text(&d), "");
    let d2 = diff_files(src, "(defun f () 1)\n(require 'y)\n", Dialect::EmacsLisp);
    assert_ne!(diff_text(&d2), "");
}
