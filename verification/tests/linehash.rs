use lisplens::linehash::read;

/// Extract the hash column from a rendered `N:hash|content` body line.
fn line_hash(rendered_line: &str) -> &str {
    rendered_line
        .split_once(':')
        .and_then(|(_, rest)| rest.split_once('|'))
        .map(|(h, _)| h)
        .unwrap()
}


#[test]
fn renders_header_and_numbered_hashed_lines() {
    // No trailing newline: exactly two content lines.
    let rendered = read("a.el", "(defun f ())\n(defvar x 1)");

    let header = rendered.lines().next().unwrap();
    assert!(header.starts_with("[a.el#"));
    assert!(header.ends_with(']'));

    let mut body = rendered.lines().skip(1);
    let first = body.next().unwrap();
    assert!(first.starts_with("1:") && first.ends_with("|(defun f ())"));
    let second = body.next().unwrap();
    assert!(second.starts_with("2:") && second.ends_with("|(defvar x 1)"));
    assert!(body.next().is_none());
}

#[test]
fn a_trailing_newline_is_shown_as_an_empty_final_line() {
    let rendered = read("d.scm", "(x)\n");
    let body: Vec<&str> = rendered.lines().skip(1).collect();
    assert_eq!(body.len(), 2);
    assert!(body[0].ends_with("|(x)"));
    assert!(body[1].starts_with("2:") && body[1].ends_with('|')); // empty content
}

#[test]
fn crlf_and_lf_hash_the_same_line_content() {
    let lf = read("f", "(x)\n(y)");
    let crlf = read("f", "(x)\r\n(y)");
    let lf_hashes: Vec<&str> = lf.lines().skip(1).map(line_hash).collect();
    let crlf_hashes: Vec<&str> = crlf.lines().skip(1).map(line_hash).collect();
    assert_eq!(lf_hashes, crlf_hashes); // terminator excluded from the hash
}

#[test]
fn identical_lines_share_a_line_hash() {
    let rendered = read("d.scm", "(x)\n(x)");
    let hashes: Vec<&str> = rendered.lines().skip(1).map(line_hash).collect();
    assert_eq!(hashes[0], hashes[1]);
}
