use brdgme_game::markup::{parse, tag, text, Node};

#[test]
fn tag_works() {
    let expected: Option<(&[u8], Node)> = Some((b"", Node::Tag(b"bacon")));
    assert_eq!(tag(b"{{bacon}}"), expected);
}

#[test]
fn parse_works() {
    let expected: (&[u8], Vec<Node>) = (
        b"",
        vec![Node::Tag(b"bacon"), Node::Text(b"cheese"), Node::Tag(b"tomato"), Node::Tag(b"chair")],
    );
    assert_eq!(parse(b"{{bacon}}cheese{{tomato}}{{chair}}"), expected);
}

#[test]
fn text_stops_before_tag_and_needs_one() {
    assert_eq!(text(b"ab{{c}}"), Some((&b"{{c}}"[..], Node::Text(b"ab"))));
    assert_eq!(text(b"abc"), None);
    assert_eq!(tag(b"{{open"), None);
    assert_eq!(tag(b"x{{a}}"), None);
}

#[test]
fn parse_leaves_unterminated_rest() {
    let (rest, nodes) = parse(b"{{a}}b{{c");
    assert_eq!(nodes, vec![Node::Tag(b"a"), Node::Text(b"b")]);
    assert_eq!(rest, b"{{c");
    let (rest, nodes) = parse(b"plain");
    assert!(nodes.is_empty());
    assert_eq!(rest, b"plain");
}
