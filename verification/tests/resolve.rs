use lisplens::hash::anchor_hash;
use lisplens::patch::Anchor;
use lisplens::reader::{read, Dialect, Node};
use lisplens::resolve::resolve;

fn anchor_for(source: &str, node: &Node) -> Anchor {
    let text: String = source.chars().skip(node.start).take(node.end - node.start).collect();
    let line = source.chars().take(node.start).filter(|&c| c == '\n').count() as u32 + 1;
    Anchor {
        line,
        hash: anchor_hash(text.as_bytes()),
        ordinal: None,
    }
}

#[test]
fn resolves_a_top_level_node_with_no_parent() {
    let src = "(define x 1)\n(define y 2)\n";
    let data = read(src, Dialect::Scheme, false);
    let a = anchor_for(src, &data[1]);
    let located = resolve(src, &data, &a).unwrap();
    assert!(located.parent.is_none());
    assert_eq!(a.line, 2);
    assert_eq!(located.node.start, data[1].start);
}

#[test]
fn resolves_a_nested_node_with_its_parent() {
    let src = "(when cond body)";
    let data = read(src, Dialect::Scheme, false);
    let a = anchor_for(src, &data[0].items[2]); // `body`
    let located = resolve(src, &data, &a).unwrap();
    assert!(located.parent.is_some());
    assert_eq!(located.index, 2);
}

#[test]
fn an_ordinal_picks_among_same_line_twins() {
    let src = "(f x x)";
    let data = read(src, Dialect::Scheme, false);
    let mut a = anchor_for(src, &data[0].items[1]);
    assert_eq!(resolve(src, &data, &a).unwrap().index, 1);
    a.ordinal = Some(2);
    assert_eq!(resolve(src, &data, &a).unwrap().index, 2);
    a.ordinal = Some(3);
    assert!(resolve(src, &data, &a).is_none());
}

#[test]
fn a_wrong_line_or_hash_resolves_nothing() {
    let src = "(a)\n(b)\n";
    let data = read(src, Dialect::Scheme, false);
    let mut a = anchor_for(src, &data[1]);
    a.line = 1;
    assert!(resolve(src, &data, &a).is_none());
    let mut b = anchor_for(src, &data[1]);
    b.hash = "zzzz".to_string();
    assert!(resolve(src, &data, &b).is_none());
}
