use cst_analyze::rule::AnalyzerOptions;
use cst_analyze::rule::QuoteStyle;
use cst_analyze::rule::run_rule;
use cst_analyze::syntax::Node;
use cst_analyze::syntax::NodeKind;
use cst_analyze::syntax::Slot;
use cst_analyze::syntax::Token;
use cst_analyze::syntax::TokenKind;
use cst_analyze::syntax::source_text;
use cst_analyze::trivia::TriviaKind;
use cst_analyze::trivia::TriviaPiece;
use cst_analyze::use_self_closing_elements::UseSelfClosingElements;
use cst_analyze::use_valid_typeof::JsTypeName;
use cst_analyze::use_valid_typeof::UseValidTypeof;

fn tok(kind: TokenKind, text: &str) -> Token {
    Token::new_detached(kind, text.to_string(), Vec::new(), Vec::new())
}

fn tok_trail(kind: TokenKind, text: &str, trail: &str) -> Token {
    Token::new_detached(
        kind,
        text.to_string(),
        Vec::new(),
        vec![TriviaPiece::new(TriviaKind::Whitespace, trail.to_string())],
    )
}

fn node(kind: NodeKind, children: Vec<Slot>) -> Node {
    Node { kind, children }
}

fn opts() -> AnalyzerOptions {
    AnalyzerOptions { preferred_quote: QuoteStyle::Double }
}

/// `<name ...attributes...></name>`; `name_trail` is trailing trivia on the
/// element name inside the opening tag.
fn element(name: &str, name_trail: &str, attributes: Vec<Slot>) -> Node {
    let name_token = if name_trail.is_empty() {
        tok(TokenKind::Ident, name)
    } else {
        tok_trail(TokenKind::Ident, name, name_trail)
    };
    let opening = node(
        NodeKind::JsxOpeningElement,
        vec![
            Slot::Token(tok(TokenKind::LAngle, "<")),
            Slot::Token(name_token),
            Slot::Empty,
            Slot::Node(node(NodeKind::JsxAttributeList, attributes)),
            Slot::Token(tok(TokenKind::RAngle, ">")),
        ],
    );
    let closing = node(
        NodeKind::JsxClosingElement,
        vec![
            Slot::Token(tok(TokenKind::LAngle, "<")),
            Slot::Token(tok(TokenKind::Slash, "/")),
            Slot::Token(tok(TokenKind::Ident, name)),
            Slot::Token(tok(TokenKind::RAngle, ">")),
        ],
    );
    node(
        NodeKind::JsxElement,
        vec![
            Slot::Node(opening),
            Slot::Node(node(NodeKind::JsxChildList, vec![])),
            Slot::Node(closing),
        ],
    )
}

fn apply_only_fix(tree: &Node, options: &AnalyzerOptions) -> Node {
    let mut out = run_rule::<UseSelfClosingElements>(tree, options);
    assert_eq!(out.len(), 1);
    let action = out.remove(0).action.expect("a fix should be offered");
    action.mutation.commit().expect("the fix batch should commit")
}

#[test]
fn self_closing_basic_fix() {
    let tree = element("div", "", vec![]);
    assert_eq!(source_text(&tree), "<div></div>");
    let options = opts();
    let fixed = apply_only_fix(&tree, &options);
    assert_eq!(source_text(&fixed), "<div />");
}

#[test]
fn self_closing_fix_is_idempotent() {
    let tree = element("div", "", vec![]);
    let options = opts();
    let fixed = apply_only_fix(&tree, &options);
    assert_eq!(source_text(&fixed), "<div />");
    let again = run_rule::<UseSelfClosingElements>(&fixed, &options);
    assert_eq!(again.len(), 0);
}

#[test]
fn self_closing_keeps_existing_space() {
    let tree = element("div", " ", vec![]);
    assert_eq!(source_text(&tree), "<div ></div>");
    let options = opts();
    let fixed = apply_only_fix(&tree, &options);
    assert_eq!(source_text(&fixed), "<div />");
}

#[test]
fn self_closing_adds_space_after_attribute() {
    let attribute = node(
        NodeKind::JsxAttribute,
        vec![
            Slot::Token(Token::new_detached(
                TokenKind::Ident,
                "foo".to_string(),
                vec![TriviaPiece::new(TriviaKind::Whitespace, " ".to_string())],
                Vec::new(),
            )),
            Slot::Token(tok(TokenKind::Assign, "=")),
            Slot::Token(tok(TokenKind::StringLiteral, "\"x\"")),
        ],
    );
    let tree = element("div", "", vec![Slot::Node(attribute)]);
    assert_eq!(source_text(&tree), "<div foo=\"x\"></div>");
    let options = opts();
    let fixed = apply_only_fix(&tree, &options);
    assert_eq!(source_text(&fixed), "<div foo=\"x\" />");
}

#[test]
fn self_closing_skips_elements_with_children() {
    let child = node(
        NodeKind::JsxText,
        vec![Slot::Token(tok(TokenKind::Other, "child"))],
    );
    let mut tree = element("div", "", vec![]);
    match &mut tree.children[1] {
        Slot::Node(list) => list.children.push(Slot::Node(child)),
        _ => panic!("expected a child list"),
    }
    assert_eq!(source_text(&tree), "<div>child</div>");
    let options = opts();
    let out = run_rule::<UseSelfClosingElements>(&tree, &options);
    assert_eq!(out.len(), 0);
}

#[test]
fn self_closing_diagnostic_message() {
    let tree = element("div", "", vec![]);
    let options = opts();
    let out = run_rule::<UseSelfClosingElements>(&tree, &options);
    assert_eq!(out.len(), 1);
    let d = &out[0].diagnostic;
    assert_eq!(
        d.message,
        "JSX elements without children should be marked as self-closing. In JSX, it is valid for any element to be self-closing."
    );
    assert_eq!((d.range.start, d.range.end), (0, 11));
}

fn ident_expr(name: &str) -> Node {
    node(NodeKind::IdentifierExpression, vec![Slot::Token(tok(TokenKind::Ident, name))])
}

fn str_lit_expr(text: &str) -> Node {
    node(NodeKind::StringLiteralExpression, vec![Slot::Token(tok(TokenKind::StringLiteral, text))])
}

fn num_lit_expr(text: &str) -> Node {
    node(NodeKind::NumberLiteralExpression, vec![Slot::Token(tok(TokenKind::NumberLiteral, text))])
}

fn typeof_expr(arg: &str) -> Node {
    node(
        NodeKind::UnaryExpression,
        vec![
            Slot::Token(tok_trail(TokenKind::Typeof, "typeof", " ")),
            Slot::Node(ident_expr(arg)),
        ],
    )
}

/// `typeof foo <op> <rhs>`, spaces around the operator.
fn comparison(op: &str, op_kind: TokenKind, rhs: Node) -> Node {
    let op_token = Token::new_detached(
        op_kind,
        op.to_string(),
        vec![TriviaPiece::new(TriviaKind::Whitespace, " ".to_string())],
        vec![TriviaPiece::new(TriviaKind::Whitespace, " ".to_string())],
    );
    node(
        NodeKind::BinaryExpression,
        vec![
            Slot::Node(typeof_expr("foo")),
            Slot::Token(op_token),
            Slot::Node(rhs),
        ],
    )
}

#[test]
fn typeof_valid_literal_is_silent() {
    let tree = comparison("===", TokenKind::StrictEquality, str_lit_expr("\"string\""));
    assert_eq!(source_text(&tree), "typeof foo === \"string\"");
    let options = opts();
    let out = run_rule::<UseValidTypeof>(&tree, &options);
    assert_eq!(out.len(), 0);
}

#[test]
fn typeof_typeof_comparison_is_silent() {
    let tree = comparison("===", TokenKind::StrictEquality, typeof_expr("qux"));
    let options = opts();
    let out = run_rule::<UseValidTypeof>(&tree, &options);
    assert_eq!(out.len(), 0);
}

#[test]
fn typeof_misspelled_literal_reports_without_fix() {
    let tree = comparison("===", TokenKind::StrictEquality, str_lit_expr("\"strnig\""));
    assert_eq!(source_text(&tree), "typeof foo === \"strnig\"");
    let options = opts();
    let out = run_rule::<UseValidTypeof>(&tree, &options);
    assert_eq!(out.len(), 1);
    let d = &out[0].diagnostic;
    assert_eq!(d.message, "Invalid `typeof` comparison value");
    assert_eq!(d.notes[0], "not a valid type name");
    assert_eq!(
        d.notes[1],
        "Invalid `typeof` comparison value: \"strnig\" is not a valid type name"
    );
    assert_eq!((d.range.start, d.range.end), (15, 23));
    assert!(out[0].action.is_none());
}

#[test]
fn typeof_wrong_case_literal_gets_lowercased_fix() {
    let tree = comparison("===", TokenKind::StrictEquality, str_lit_expr("\"String\""));
    let options = opts();
    let mut out = run_rule::<UseValidTypeof>(&tree, &options);
    assert_eq!(out.len(), 1);
    let action = out.remove(0).action.expect("a corrected literal should be offered");
    let fixed = action.mutation.commit().unwrap();
    assert_eq!(source_text(&fixed), "typeof foo === \"string\"");
}

#[test]
fn typeof_known_identifier_gets_quoted_fix() {
    let tree = comparison("===", TokenKind::StrictEquality, ident_expr("undefined"));
    assert_eq!(source_text(&tree), "typeof foo === undefined");
    let options = opts();
    let mut out = run_rule::<UseValidTypeof>(&tree, &options);
    assert_eq!(out.len(), 1);
    let d = &out[0].diagnostic;
    assert_eq!(d.notes[0], "not a string literal");
    assert_eq!((d.range.start, d.range.end), (15, 24));
    let action = out.remove(0).action.expect("a quoted literal should be offered");
    let fixed = action.mutation.commit().unwrap();
    assert_eq!(source_text(&fixed), "typeof foo === \"undefined\"");
}

#[test]
fn typeof_unknown_identifier_reports_without_fix() {
    let tree = comparison("===", TokenKind::StrictEquality, ident_expr("baz"));
    let options = opts();
    let out = run_rule::<UseValidTypeof>(&tree, &options);
    assert_eq!(out.len(), 1);
    assert_eq!(out[0].diagnostic.notes[0], "not a string literal");
    assert!(out[0].action.is_none());
}

#[test]
fn typeof_number_literal_reports_without_fix() {
    let tree = comparison("==", TokenKind::Equality, num_lit_expr("5"));
    let options = opts();
    let out = run_rule::<UseValidTypeof>(&tree, &options);
    assert_eq!(out.len(), 1);
    assert_eq!(out[0].diagnostic.notes[0], "not a string literal");
    assert!(out[0].action.is_none());
}

#[test]
fn typeof_fix_honours_single_quote_preference() {
    let tree = comparison("!=", TokenKind::Inequality, ident_expr("Object"));
    let options = AnalyzerOptions { preferred_quote: QuoteStyle::Single };
    let mut out = run_rule::<UseValidTypeof>(&tree, &options);
    assert_eq!(out.len(), 1);
    let action = out.remove(0).action.expect("a quoted literal should be offered");
    let fixed = action.mutation.commit().unwrap();
    assert_eq!(source_text(&fixed), "typeof foo != 'object'");
}

#[test]
fn typeof_flipped_operands_fix_replaces_identifier() {
    let op_token = Token::new_detached(
        TokenKind::StrictEquality,
        "===".to_string(),
        vec![TriviaPiece::new(TriviaKind::Whitespace, " ".to_string())],
        vec![TriviaPiece::new(TriviaKind::Whitespace, " ".to_string())],
    );
    let tree = node(
        NodeKind::BinaryExpression,
        vec![
            Slot::Node(ident_expr("undefined")),
            Slot::Token(op_token),
            Slot::Node(typeof_expr("foo")),
        ],
    );
    assert_eq!(source_text(&tree), "undefined === typeof foo");
    let options = opts();
    let mut out = run_rule::<UseValidTypeof>(&tree, &options);
    assert_eq!(out.len(), 1);
    let action = out.remove(0).action.expect("a quoted literal should be offered");
    let fixed = action.mutation.commit().unwrap();
    assert_eq!(source_text(&fixed), "\"undefined\" === typeof foo");
}

#[test]
fn type_name_parsing_and_spelling() {
    assert_eq!(JsTypeName::from_str("undefined"), Some(JsTypeName::Undefined));
    assert_eq!(JsTypeName::from_str("object"), Some(JsTypeName::Object));
    assert_eq!(JsTypeName::from_str("boolean"), Some(JsTypeName::Boolean));
    assert_eq!(JsTypeName::from_str("number"), Some(JsTypeName::Number));
    assert_eq!(JsTypeName::from_str("string"), Some(JsTypeName::String));
    assert_eq!(JsTypeName::from_str("function"), Some(JsTypeName::Function));
    assert_eq!(JsTypeName::from_str("symbol"), Some(JsTypeName::Symbol));
    assert_eq!(JsTypeName::from_str("bigint"), Some(JsTypeName::BigInt));
    assert_eq!(JsTypeName::from_str("strnig"), None);
    assert_eq!(JsTypeName::from_str("String"), None);
    assert_eq!(JsTypeName::from_str(""), None);
    assert_eq!(JsTypeName::Undefined.as_str(), "undefined");
    assert_eq!(JsTypeName::BigInt.as_str(), "bigint");
    assert_eq!(JsTypeName::from_str(JsTypeName::Symbol.as_str()), Some(JsTypeName::Symbol));
}

#[test]
fn independent_rules_share_one_immutable_tree() {
    let cmp = comparison("===", TokenKind::StrictEquality, ident_expr("undefined"));
    let el = element("div", "", vec![]);
    let tree = node(NodeKind::Other, vec![Slot::Node(el), Slot::Node(cmp)]);
    let before = source_text(&tree);
    let options = opts();
    let mut jsx_out = run_rule::<UseSelfClosingElements>(&tree, &options);
    let mut typeof_out = run_rule::<UseValidTypeof>(&tree, &options);
    assert_eq!(jsx_out.len(), 1);
    assert_eq!(typeof_out.len(), 1);
    assert_eq!(source_text(&tree), before);
    let fixed_jsx = jsx_out.remove(0).action.unwrap().mutation.commit().unwrap();
    let fixed_typeof = typeof_out.remove(0).action.unwrap().mutation.commit().unwrap();
    assert_eq!(source_text(&fixed_jsx), "<div />typeof foo === undefined");
    assert_eq!(source_text(&fixed_typeof), "<div></div>typeof foo === \"undefined\"");
    assert_eq!(source_text(&tree), before);
}

#[test]
fn diagnostics_come_in_document_order() {
    let first = element("a", "", vec![]);
    let second = element("b", "", vec![]);
    let tree = node(NodeKind::Other, vec![Slot::Node(first), Slot::Node(second)]);
    assert_eq!(source_text(&tree), "<a></a><b></b>");
    let options = opts();
    let out = run_rule::<UseSelfClosingElements>(&tree, &options);
    assert_eq!(out.len(), 2);
    assert_eq!((out[0].diagnostic.range.start, out[0].diagnostic.range.end), (0, 7));
    assert_eq!((out[1].diagnostic.range.start, out[1].diagnostic.range.end), (7, 14));
}
