//! The node and token factory: constructors for detached, well-formed tree
//! fragments.  Handing a constructor a child of the wrong kind for its slot
//! is a programming error, excluded by contract rather than checked at run
//! time.

use vstd::prelude::*;

use crate::syntax::Node;
use crate::syntax::NodeKind;
use crate::syntax::NodeView;
use crate::syntax::Slot;
use crate::syntax::SlotView;
use crate::syntax::Token;
use crate::syntax::TokenKind;
use crate::syntax::TokenView;
use crate::syntax::lemma_slots_view;
use crate::syntax::slot_view;
use crate::trivia::TriviaPiece;

verus! {

/// A quoted string-literal token with double quotes and no trivia.
pub fn js_string_literal(text: &str) -> (r: Token)
    ensures
        r@.kind == TokenKind::StringLiteral,
        r@.text == seq!['"'] + text@ + seq!['"'],
        r@.leading.len() == 0,
        r@.trailing.len() == 0,
{
    let mut s = String::new();
    crate::text::push_char(&mut s, '"');
    s.append(text);
    crate::text::push_char(&mut s, '"');
    proof {
        assert(s@ =~= seq!['"'] + text@ + seq!['"']);
    }
    Token::new_detached(TokenKind::StringLiteral, s, Vec::new(), Vec::new())
}

/// A quoted string-literal token with single quotes and no trivia.
pub fn js_string_literal_single_quotes(text: &str) -> (r: Token)
    ensures
        r@.kind == TokenKind::StringLiteral,
        r@.text == seq!['\''] + text@ + seq!['\''],
        r@.leading.len() == 0,
        r@.trailing.len() == 0,
{
    let mut s = String::new();
    crate::text::push_char(&mut s, '\'');
    s.append(text);
    crate::text::push_char(&mut s, '\'');
    proof {
        assert(s@ =~= seq!['\''] + text@ + seq!['\'']);
    }
    Token::new_detached(TokenKind::StringLiteral, s, Vec::new(), Vec::new())
}

/// A string-literal expression node wrapping one string-literal token.
pub fn js_string_literal_expression(token: Token) -> (r: Node)
    requires
        token@.kind == TokenKind::StringLiteral,
    ensures
        r@ == (NodeView {
            kind: NodeKind::StringLiteralExpression,
            children: seq![SlotView::Token(token@)],
        }),
{
    let ghost tv = token@;
    let mut children: Vec<Slot> = Vec::new();
    children.push(Slot::Token(token));
    let r = Node { kind: NodeKind::StringLiteralExpression, children };
    proof {
        lemma_slots_view(r.children@);
        assert(r@.children =~= seq![SlotView::Token(tv)]);
    }
    r
}

/// Builds a self-closing JSX element from its parts.  The optional type
/// arguments slot starts empty and can be attached afterwards.
pub struct JsxSelfClosingElementBuilder {
    pub l_angle: Token,
    pub name: Slot,
    pub type_arguments: Slot,
    pub attributes: Slot,
    pub slash: Token,
    pub r_angle: Token,
}

/// Starts building a self-closing element with an empty type-arguments
/// slot.
pub fn jsx_self_closing_element(
    l_angle: Token,
    name: Slot,
    attributes: Slot,
    slash: Token,
    r_angle: Token,
) -> (r: JsxSelfClosingElementBuilder)
    ensures
        r.l_angle@ == l_angle@,
        r.name@ == name@,
        r.type_arguments@ == SlotView::Empty,
        r.attributes@ == attributes@,
        r.slash@ == slash@,
        r.r_angle@ == r_angle@,
{
    JsxSelfClosingElementBuilder {
        l_angle,
        name,
        type_arguments: Slot::Empty,
        attributes,
        slash,
        r_angle,
    }
}

impl JsxSelfClosingElementBuilder {
    /// Attaches the optional type-arguments slot.
    pub fn with_type_arguments(self, type_arguments: Slot) -> (r: Self)
        ensures
            r.l_angle@ == self.l_angle@,
            r.name@ == self.name@,
            r.type_arguments@ == type_arguments@,
            r.attributes@ == self.attributes@,
            r.slash@ == self.slash@,
            r.r_angle@ == self.r_angle@,
    {
        JsxSelfClosingElementBuilder { type_arguments, ..self }
    }

    /// Finishes the node: `<` name type-arguments attributes `/` `>`.
    pub fn build(self) -> (r: Node)
        requires
            self.l_angle@.kind == TokenKind::LAngle,
            self.slash@.kind == TokenKind::Slash,
            self.r_angle@.kind == TokenKind::RAngle,
        ensures
            r@ == (NodeView {
                kind: NodeKind::JsxSelfClosingElement,
                children: seq![
                    SlotView::Token(self.l_angle@),
                    self.name@,
                    self.type_arguments@,
                    self.attributes@,
                    SlotView::Token(self.slash@),
                    SlotView::Token(self.r_angle@),
                ],
            }),
    {
        let ghost sv = *&self;
        let JsxSelfClosingElementBuilder { l_angle, name, type_arguments, attributes, slash, r_angle } =
            self;
        let mut children: Vec<Slot> = Vec::new();
        children.push(Slot::Token(l_angle));
        children.push(name);
        children.push(type_arguments);
        children.push(attributes);
        children.push(Slot::Token(slash));
        children.push(Slot::Token(r_angle));
        let r = Node { kind: NodeKind::JsxSelfClosingElement, children };
        proof {
            lemma_slots_view(r.children@);
            assert(r@.children =~= seq![
                SlotView::Token(sv.l_angle@),
                sv.name@,
                sv.type_arguments@,
                sv.attributes@,
                SlotView::Token(sv.slash@),
                SlotView::Token(sv.r_angle@),
            ]);
        }
        r
    }
}

/// A plain node with the given kind and children, for building test
/// fixtures and fragments whose shape the grammar leaves free.
pub fn node_with_children(kind: NodeKind, children: Vec<Slot>) -> (r: Node)
    ensures
        r@.kind == kind,
        r@.children.len() == children@.len(),
        forall|i: int| 0 <= i < children@.len() ==> r@.children[i] == slot_view(children@[i]),
{
    let r = Node { kind, children };
    proof {
        lemma_slots_view(r.children@);
    }
    r
}

} // verus!
