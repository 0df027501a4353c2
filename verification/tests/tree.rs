use cst_analyze::location::text_range;
use cst_analyze::mutation::BatchError;
use cst_analyze::query::for_each_node_of_kind;
use cst_analyze::syntax::Node;
use cst_analyze::syntax::NodeKind;
use cst_analyze::syntax::Slot;
use cst_analyze::syntax::Token;
use cst_analyze::syntax::TokenKind;
use cst_analyze::syntax::node_at_path;
use cst_analyze::syntax::source_text;
use cst_analyze::trivia::TriviaKind;
use cst_analyze::trivia::TriviaPiece;

fn tok(kind: TokenKind, text: &str) -> Token {
    Token::new_detached(kind, text.to_string(), Vec::new(), Vec::new())
}

fn tok_trail(kind: TokenKind, text: &str, trail: &str) -> Token {
    Token::new_detached(
        kind,
        text.to_string(),
        Vec::new(),
        vec![TriviaPiece::new(TriviaKind::Whitespace, trail.to_string())],
    )
}

fn node(kind: NodeKind, children: Vec<Slot>) -> Node {
    Node { kind, children }
}

fn ident_expr(name: &str) -> Node {
    node(NodeKind::IdentifierExpression, vec![Slot::Token(tok(TokenKind::Ident, name))])
}

/// `<div></div>`, with no extra whitespace.
fn div_element() -> Node {
    let opening = node(
        NodeKind::JsxOpeningElement,
        vec![
            Slot::Token(tok(TokenKind::LAngle, "<")),
            Slot::Token(tok(TokenKind::Ident, "div")),
            Slot::Empty,
            Slot::Node(node(NodeKind::JsxAttributeList, vec![])),
            Slot::Token(tok(TokenKind::RAngle, ">")),
        ],
    );
    let closing = node(
        NodeKind::JsxClosingElement,
        vec![
            Slot::Token(tok(TokenKind::LAngle, "<")),
            Slot::Token(tok(TokenKind::Slash, "/")),
            Slot::Token(tok(TokenKind::Ident, "div")),
            Slot::Token(tok(TokenKind::RAngle, ">")),
        ],
    );
    node(
        NodeKind::JsxElement,
        vec![
            Slot::Node(opening),
            Slot::Node(node(NodeKind::JsxChildList, vec![])),
            Slot::Node(closing),
        ],
    )
}

#[test]
fn round_trip_plain_element() {
    let tree = div_element();
    assert_eq!(source_text(&tree), "<div></div>");
}

#[test]
fn round_trip_keeps_comment_trivia() {
    let mut lead = Vec::new();
    lead.push(TriviaPiece::new(TriviaKind::LineComment, "// note".to_string()));
    lead.push(TriviaPiece::new(TriviaKind::Newline, "\n".to_string()));
    let t = Token::new_detached(
        TokenKind::Ident,
        "foo".to_string(),
        lead,
        vec![TriviaPiece::new(TriviaKind::Whitespace, "  ".to_string())],
    );
    let tree = node(NodeKind::IdentifierExpression, vec![Slot::Token(t)]);
    assert_eq!(source_text(&tree), "// note\nfoo  ");
}

#[test]
fn round_trip_after_commit() {
    let tree = node(
        NodeKind::Other,
        vec![Slot::Node(ident_expr("abc")), Slot::Node(ident_expr("xyz"))],
    );
    assert_eq!(source_text(&tree), "abcxyz");
    let mut batch = tree.begin();
    batch.replace_node(vec![0], Slot::Node(ident_expr("q")));
    let new_tree = batch.commit().unwrap();
    assert_eq!(source_text(&new_tree), "qxyz");
    assert_eq!(source_text(&tree), "abcxyz");
}

#[test]
fn structural_sharing_off_path() {
    let left = node(NodeKind::Other, vec![Slot::Node(ident_expr("a")), Slot::Node(ident_expr("b"))]);
    let right = node(NodeKind::Other, vec![Slot::Node(ident_expr("c"))]);
    let tree = node(NodeKind::Other, vec![Slot::Node(left), Slot::Node(right)]);
    let mut batch = tree.begin();
    batch.replace_node(vec![0, 1], Slot::Node(ident_expr("B")));
    let new_tree = batch.commit().unwrap();
    assert_eq!(source_text(&new_tree), "aBc");
    let old_right = node_at_path(&tree, &vec![1]).unwrap();
    let new_right = node_at_path(&new_tree, &vec![1]).unwrap();
    assert_eq!(source_text(old_right), source_text(new_right));
    let old_a = node_at_path(&tree, &vec![0, 0]).unwrap();
    let new_a = node_at_path(&new_tree, &vec![0, 0]).unwrap();
    assert_eq!(source_text(old_a), source_text(new_a));
}

#[test]
fn batch_overlap_fails_whole_commit() {
    let tree = node(NodeKind::Other, vec![Slot::Node(ident_expr("a"))]);
    let mut batch = tree.begin();
    batch.replace_node(vec![0], Slot::Node(ident_expr("x")));
    batch.replace_node(vec![0, 0], Slot::Token(tok(TokenKind::Ident, "y")));
    match batch.commit() {
        Err(BatchError::Overlap) => {},
        _ => panic!("overlapping edits must fail the whole batch"),
    }
    assert_eq!(source_text(&tree), "a");
}

#[test]
fn batch_same_node_twice_fails() {
    let tree = node(NodeKind::Other, vec![Slot::Node(ident_expr("a"))]);
    let mut batch = tree.begin();
    batch.replace_node(vec![0], Slot::Node(ident_expr("x")));
    batch.replace_node(vec![0], Slot::Node(ident_expr("y")));
    match batch.commit() {
        Err(BatchError::Overlap) => {},
        _ => panic!("two edits of one node must fail"),
    }
}

#[test]
fn batch_unreachable_node_fails() {
    let tree = node(NodeKind::Other, vec![Slot::Node(ident_expr("a"))]);
    let mut batch = tree.begin();
    batch.replace_node(vec![7], Slot::Node(ident_expr("x")));
    match batch.commit() {
        Err(BatchError::NotReachable) => {},
        _ => panic!("an edit outside the base tree must fail"),
    }
}

#[test]
fn batch_incompatible_kind_fails() {
    let tree = node(NodeKind::Other, vec![Slot::Node(ident_expr("a"))]);
    let mut batch = tree.begin();
    batch.replace_node(vec![0], Slot::Node(node(NodeKind::JsxOpeningElement, vec![])));
    match batch.commit() {
        Err(BatchError::IncompatibleKind) => {},
        _ => panic!("a replacement of the wrong kind must fail"),
    }
}

#[test]
fn batch_disjoint_edits_apply_in_one_commit() {
    let tree = node(
        NodeKind::Other,
        vec![Slot::Node(ident_expr("a")), Slot::Node(ident_expr("b"))],
    );
    let mut batch = tree.begin();
    batch.replace_node(vec![0], Slot::Node(ident_expr("x")));
    batch.replace_node(vec![1], Slot::Node(ident_expr("y")));
    let new_tree = batch.commit().unwrap();
    assert_eq!(source_text(&new_tree), "xy");
}

#[test]
fn query_is_preorder_and_restartable() {
    let inner = node(NodeKind::Other, vec![Slot::Node(ident_expr("i"))]);
    let tree = node(
        NodeKind::Other,
        vec![Slot::Node(inner), Slot::Node(ident_expr("j")), Slot::Token(tok(TokenKind::Other, "t"))],
    );
    let paths = for_each_node_of_kind(&tree, NodeKind::IdentifierExpression);
    assert_eq!(paths, vec![vec![0, 0], vec![1]]);
    let again = for_each_node_of_kind(&tree, NodeKind::IdentifierExpression);
    assert_eq!(paths, again);
    let others = for_each_node_of_kind(&tree, NodeKind::Other);
    assert_eq!(others, vec![vec![], vec![0]]);
}

#[test]
fn text_range_of_subtrees() {
    let tree = node(
        NodeKind::Other,
        vec![
            Slot::Node(ident_expr("ab")),
            Slot::Node(node(
                NodeKind::IdentifierExpression,
                vec![Slot::Token(tok_trail(TokenKind::Ident, "cde", " "))],
            )),
        ],
    );
    assert_eq!(source_text(&tree), "abcde ");
    let r0 = text_range(&tree, &vec![0]);
    assert_eq!((r0.start, r0.end), (0, 2));
    let r1 = text_range(&tree, &vec![1]);
    assert_eq!((r1.start, r1.end), (2, 6));
    let r_tok = text_range(&tree, &vec![1, 0]);
    assert_eq!((r_tok.start, r_tok.end), (2, 6));
    let whole = text_range(&tree, &vec![]);
    assert_eq!((whole.start, whole.end), (0, 6));
}
