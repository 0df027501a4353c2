//! Verifies that the result of a `typeof` unary expression is compared to a
//! valid value: a string literal naming one of the JavaScript types, or
//! another `typeof` expression.  A literal with the wrong spelling or case
//! is flagged as an invalid literal, with a corrected literal offered when
//! its lowered form names a type; any other comparison target is flagged as
//! an invalid comparison target, with a quoted literal offered when an
//! identifier's lowered name names a type.

use vstd::prelude::*;

use crate::diagnostic::ActionCategory;
use crate::diagnostic::ActionView;
use crate::diagnostic::Applicability;
use crate::diagnostic::Diagnostic;
use crate::diagnostic::DiagnosticView;
use crate::diagnostic::RuleAction;
use crate::diagnostic::Severity;
use crate::location::TextRange;
use crate::location::offset_of;
use crate::location::text_range;
use crate::mutation::EditView;
use crate::rule::AnalyzerOptions;
use crate::rule::QuoteStyle;
use crate::rule::Rule;
use crate::rule::RuleContext;
use crate::syntax::NodeKind;
use crate::syntax::NodeView;
use crate::syntax::Slot;
use crate::syntax::SlotView;
use crate::syntax::TokenKind;
use crate::syntax::TokenView;
use crate::syntax::slot_at;
use crate::syntax::slot_source;
use crate::text::lower_seq;
use crate::text::strip_quotes;
use crate::trivia::trivia_text;

verus! {

/// The vocabulary of JavaScript type names that `typeof` can produce.
#[derive(Clone, Copy, PartialEq, Eq, Structural, Debug)]
pub enum JsTypeName {
    Undefined,
    Object,
    Boolean,
    Number,
    String,
    Function,
    Symbol,
    BigInt,
}

/// The type named by the given text, if any; the match is exact, case
/// included.
pub open spec fn type_name_of(s: Seq<char>) -> Option<JsTypeName> {
    if s == ("undefined")@ {
        Some(JsTypeName::Undefined)
    } else if s == ("object")@ {
        Some(JsTypeName::Object)
    } else if s == ("boolean")@ {
        Some(JsTypeName::Boolean)
    } else if s == ("number")@ {
        Some(JsTypeName::Number)
    } else if s == ("string")@ {
        Some(JsTypeName::String)
    } else if s == ("function")@ {
        Some(JsTypeName::Function)
    } else if s == ("symbol")@ {
        Some(JsTypeName::Symbol)
    } else if s == ("bigint")@ {
        Some(JsTypeName::BigInt)
    } else {
        None
    }
}

/// The textual name of each type.
pub open spec fn type_name_text(t: JsTypeName) -> Seq<char> {
    match t {
        JsTypeName::Undefined => ("undefined")@,
        JsTypeName::Object => ("object")@,
        JsTypeName::Boolean => ("boolean")@,
        JsTypeName::Number => ("number")@,
        JsTypeName::String => ("string")@,
        JsTypeName::Function => ("function")@,
        JsTypeName::Symbol => ("symbol")@,
        JsTypeName::BigInt => ("bigint")@,
    }
}

impl JsTypeName {
    /// Constructs a `JsTypeName` from the textual name of a JavaScript
    /// type.
    pub fn from_str(s: &str) -> (r: Option<JsTypeName>)
        ensures
            r == type_name_of(s@),
    {
        if crate::text::str_eq(s, "undefined") {
            Some(JsTypeName::Undefined)
        } else if crate::text::str_eq(s, "object") {
            Some(JsTypeName::Object)
        } else if crate::text::str_eq(s, "boolean") {
            Some(JsTypeName::Boolean)
        } else if crate::text::str_eq(s, "number") {
            Some(JsTypeName::Number)
        } else if crate::text::str_eq(s, "string") {
            Some(JsTypeName::String)
        } else if crate::text::str_eq(s, "function") {
            Some(JsTypeName::Function)
        } else if crate::text::str_eq(s, "symbol") {
            Some(JsTypeName::Symbol)
        } else if crate::text::str_eq(s, "bigint") {
            Some(JsTypeName::BigInt)
        } else {
            None
        }
    }

    /// Converts a `JsTypeName` to the text of a JS string literal.
    pub fn as_str(&self) -> (r: &'static str)
        ensures
            r@ == type_name_text(*self),
    {
        match self {
            JsTypeName::Undefined => "undefined",
            JsTypeName::Object => "object",
            JsTypeName::Boolean => "boolean",
            JsTypeName::Number => "number",
            JsTypeName::String => "string",
            JsTypeName::Function => "function",
            JsTypeName::Symbol => "symbol",
            JsTypeName::BigInt => "bigint",
        }
    }
}

/// Reading a type name back from its text yields the same type: the
/// vocabulary is unambiguous.
pub proof fn lemma_type_name_round_trip(t: JsTypeName)
    ensures
        type_name_of(type_name_text(t)) == Some(t),
{
    reveal_strlit("undefined");
    reveal_strlit("object");
    reveal_strlit("boolean");
    reveal_strlit("number");
    reveal_strlit("string");
    reveal_strlit("function");
    reveal_strlit("symbol");
    reveal_strlit("bigint");
    assert(("undefined")@.len() == 9 && ("object")@.len() == 6 && ("boolean")@.len() == 7 && (
    "number")@.len() == 6 && ("string")@.len() == 6 && ("function")@.len() == 8 && (
    "symbol")@.len() == 6 && ("bigint")@.len() == 6);
    assert(("object")@[0] == 'o' && ("number")@[0] == 'n' && ("string")@[0] == 's' && (
    "symbol")@[0] == 's' && ("bigint")@[0] == 'b');
    assert(("string")@[1] == 't' && ("symbol")@[1] == 'y');
}

/// The finding a match produces: a string literal that names no type, or a
/// comparison target that is no string literal at all.
#[derive(Debug)]
pub enum TypeofError {
    InvalidLiteral(TextRange, String),
    InvalidExpression(TextRange),
}

/// Ghost image of a finding.
#[verifier::ext_equal]
pub ghost enum TypeofErrorView {
    InvalidLiteral(TextRange, Seq<char>),
    InvalidExpression(TextRange),
}

impl View for TypeofError {
    type V = TypeofErrorView;

    open spec fn view(&self) -> TypeofErrorView {
        match self {
            TypeofError::InvalidLiteral(r, s) => TypeofErrorView::InvalidLiteral(*r, s@),
            TypeofError::InvalidExpression(r) => TypeofErrorView::InvalidExpression(*r),
        }
    }
}

/// A match's analysis state: the finding, and, when a corrected literal
/// can be offered, the path of the expression to replace and the type to
/// spell.
#[derive(Debug)]
pub struct TypeofState {
    pub error: TypeofError,
    pub suggestion: Option<(Vec<usize>, JsTypeName)>,
}

/// Ghost image of an analysis state.
#[verifier::ext_equal]
pub ghost struct TypeofStateView {
    pub error: TypeofErrorView,
    pub suggestion: Option<(Seq<usize>, JsTypeName)>,
}

impl View for TypeofState {
    type V = TypeofStateView;

    open spec fn view(&self) -> TypeofStateView {
        TypeofStateView {
            error: self.error@,
            suggestion: match self.suggestion {
                Some((p, t)) => Some((p@, t)),
                None => None,
            },
        }
    }
}

/// Flags comparisons of `typeof` against anything but a valid type-name
/// literal or another `typeof` expression.
pub struct UseValidTypeof;

/// The operands and operator of a binary expression of the expected shape.
pub open spec fn binary_parts(b: NodeView) -> Option<(NodeView, TokenView, NodeView)> {
    if b.children.len() == 3 {
        match (b.children[0], b.children[1], b.children[2]) {
            (SlotView::Node(l), SlotView::Token(op), SlotView::Node(r)) => Some((l, op, r)),
            _ => None,
        }
    } else {
        None
    }
}

/// Whether the operator is one of the four (in)equality comparisons.
pub open spec fn is_eq_op(k: TokenKind) -> bool {
    ||| k == TokenKind::Equality
    ||| k == TokenKind::StrictEquality
    ||| k == TokenKind::Inequality
    ||| k == TokenKind::StrictInequality
}

/// Whether the node is a `typeof` unary expression.
pub open spec fn is_typeof_unary(n: NodeView) -> bool {
    &&& n.kind == NodeKind::UnaryExpression
    &&& n.children.len() == 2
    &&& (n.children[0] matches SlotView::Token(t) && t.kind == TokenKind::Typeof)
}

/// Whether the node kind is a literal expression.
pub open spec fn is_literal_kind(k: NodeKind) -> bool {
    k == NodeKind::StringLiteralExpression || k == NodeKind::NumberLiteralExpression
}

/// The value token of a string-literal expression.
pub open spec fn string_literal_token(n: NodeView) -> Option<TokenView> {
    if n.kind == NodeKind::StringLiteralExpression && n.children.len() == 1 {
        match n.children[0] {
            SlotView::Token(t) => {
                if t.kind == TokenKind::StringLiteral {
                    Some(t)
                } else {
                    None
                }
            },
            _ => None,
        }
    } else {
        None
    }
}

/// The name token of an identifier expression.
pub open spec fn ident_token(n: NodeView) -> Option<TokenView> {
    if n.kind == NodeKind::IdentifierExpression && n.children.len() == 1 {
        match n.children[0] {
            SlotView::Token(t) => {
                if t.kind == TokenKind::Ident {
                    Some(t)
                } else {
                    None
                }
            },
            _ => None,
        }
    } else {
        None
    }
}

/// The source range of the whole slot at `path`.
pub open spec fn slot_range(root: NodeView, path: Seq<usize>) -> TextRange {
    TextRange {
        start: offset_of(SlotView::Node(root), path) as usize,
        end: (offset_of(SlotView::Node(root), path) + slot_source(
            slot_at(SlotView::Node(root), path)->0,
        ).len()) as usize,
    }
}

/// The source range of a token's own text at `path`, leading and trailing
/// trivia excluded.
pub open spec fn trimmed_range(root: NodeView, path: Seq<usize>, tok: TokenView) -> TextRange {
    TextRange {
        start: (offset_of(SlotView::Node(root), path) + trivia_text(tok.leading).len()) as usize,
        end: (offset_of(SlotView::Node(root), path) + trivia_text(tok.leading).len()
            + tok.text.len()) as usize,
    }
}

/// The state produced when `typeof` is compared against a string literal:
/// a literal that names a type exactly is no finding; any other is an
/// invalid literal, with a correction offered when its lowered form names
/// a type.
pub open spec fn literal_state(
    root: NodeView,
    litpath: Seq<usize>,
    tok: TokenView,
) -> Option<TypeofStateView> {
    let stripped = strip_quotes(tok.text);
    if type_name_of(stripped) is Some {
        None
    } else {
        Some(
            TypeofStateView {
                error: TypeofErrorView::InvalidLiteral(
                    trimmed_range(root, litpath.push(0), tok),
                    stripped,
                ),
                suggestion: match type_name_of(lower_seq(stripped)) {
                    Some(t) => Some((litpath, t)),
                    None => None,
                },
            },
        )
    }
}

/// The state produced when `typeof` is compared against an identifier: an
/// invalid comparison target, with a quoted literal offered when the
/// identifier's lowered name names a type.
pub open spec fn ident_state(
    root: NodeView,
    idpath: Seq<usize>,
    tok: TokenView,
) -> Option<TypeofStateView> {
    Some(
        TypeofStateView {
            error: TypeofErrorView::InvalidExpression(slot_range(root, idpath)),
            suggestion: match type_name_of(lower_seq(tok.text)) {
                Some(t) => Some((idpath, t)),
                None => None,
            },
        },
    )
}

/// The state produced for the match at `path`, mirroring the rule's
/// analysis step case by case.
pub open spec fn typeof_state(root: NodeView, path: Seq<usize>) -> Option<TypeofStateView> {
    match slot_at(SlotView::Node(root), path) {
        Some(SlotView::Node(b)) => {
            if b.kind != NodeKind::BinaryExpression {
                None
            } else {
                match binary_parts(b) {
                    Some((l, op, rgt)) => {
                        if !is_eq_op(op.kind) {
                            None
                        } else {
                            typeof_state_parts(root, path, l, rgt)
                        }
                    },
                    None => None,
                }
            }
        },
        _ => None,
    }
}

/// The case analysis over the two operands.
pub open spec fn typeof_state_parts(
    root: NodeView,
    path: Seq<usize>,
    l: NodeView,
    rgt: NodeView,
) -> Option<TypeofStateView> {
    let lpath = path.push(0);
    let rpath = path.push(2);
    if l.kind == NodeKind::UnaryExpression && is_literal_kind(rgt.kind) {
        if !is_typeof_unary(l) {
            None
        } else {
            match string_literal_token(rgt) {
                Some(tok) => literal_state(root, rpath, tok),
                None => Some(
                    TypeofStateView {
                        error: TypeofErrorView::InvalidExpression(slot_range(root, rpath)),
                        suggestion: None,
                    },
                ),
            }
        }
    } else if is_literal_kind(l.kind) && rgt.kind == NodeKind::UnaryExpression {
        if !is_typeof_unary(rgt) {
            None
        } else {
            match string_literal_token(l) {
                Some(tok) => literal_state(root, lpath, tok),
                None => Some(
                    TypeofStateView {
                        error: TypeofErrorView::InvalidExpression(slot_range(root, lpath)),
                        suggestion: None,
                    },
                ),
            }
        }
    } else if l.kind == NodeKind::UnaryExpression && rgt.kind == NodeKind::UnaryExpression {
        if is_typeof_unary(l) && !is_typeof_unary(rgt) {
            Some(
                TypeofStateView {
                    error: TypeofErrorView::InvalidExpression(slot_range(root, rpath)),
                    suggestion: None,
                },
            )
        } else if is_typeof_unary(rgt) && !is_typeof_unary(l) {
            Some(
                TypeofStateView {
                    error: TypeofErrorView::InvalidExpression(slot_range(root, lpath)),
                    suggestion: None,
                },
            )
        } else {
            None
        }
    } else if l.kind == NodeKind::UnaryExpression && rgt.kind == NodeKind::IdentifierExpression {
        if !is_typeof_unary(l) {
            None
        } else {
            match ident_token(rgt) {
                Some(tok) => ident_state(root, rpath, tok),
                None => Some(
                    TypeofStateView {
                        error: TypeofErrorView::InvalidExpression(slot_range(root, rpath)),
                        suggestion: None,
                    },
                ),
            }
        }
    } else if l.kind == NodeKind::IdentifierExpression && rgt.kind == NodeKind::UnaryExpression {
        if !is_typeof_unary(rgt) {
            None
        } else {
            match ident_token(l) {
                Some(tok) => ident_state(root, lpath, tok),
                None => Some(
                    TypeofStateView {
                        error: TypeofErrorView::InvalidExpression(slot_range(root, lpath)),
                        suggestion: None,
                    },
                ),
            }
        }
    } else if l.kind == NodeKind::UnaryExpression {
        if !is_typeof_unary(l) {
            None
        } else {
            Some(
                TypeofStateView {
                    error: TypeofErrorView::InvalidExpression(slot_range(root, rpath)),
                    suggestion: None,
                },
            )
        }
    } else if rgt.kind == NodeKind::UnaryExpression {
        if !is_typeof_unary(rgt) {
            None
        } else {
            Some(
                TypeofStateView {
                    error: TypeofErrorView::InvalidExpression(slot_range(root, lpath)),
                    suggestion: None,
                },
            )
        }
    } else {
        None
    }
}

/// The corrected literal expression a suggestion builds: the type name in
/// the preferred quotes, with no trivia.
pub open spec fn replacement_literal(t: JsTypeName, options: AnalyzerOptions) -> NodeView {
    NodeView {
        kind: NodeKind::StringLiteralExpression,
        children: seq![
            SlotView::Token(
                TokenView {
                    kind: TokenKind::StringLiteral,
                    text: (if options.preferred_quote == QuoteStyle::Double {
                        seq!['"'] + type_name_text(t) + seq!['"']
                    } else {
                        seq!['\''] + type_name_text(t) + seq!['\'']
                    }),
                    leading: Seq::empty(),
                    trailing: Seq::empty(),
                },
            ),
        ],
    }
}

/// Decides `is_eq_op`.
pub fn is_eq_op_exec(k: TokenKind) -> (r: bool)
    ensures
        r == is_eq_op(k),
{
    match k {
        TokenKind::Equality
        | TokenKind::StrictEquality
        | TokenKind::Inequality
        | TokenKind::StrictInequality => true,
        _ => false,
    }
}

/// Decides `is_typeof_unary`.
pub fn is_typeof_unary_exec(n: &crate::syntax::Node) -> (r: bool)
    ensures
        r == is_typeof_unary(n@),
{
    if !(n.kind == NodeKind::UnaryExpression) || n.slot_count() != 2 {
        return false;
    }
    match n.slot(0) {
        Some(sl) => {
            match sl.as_token() {
                Some(t) => t.kind == TokenKind::Typeof,
                None => false,
            }
        },
        None => false,
    }
}

/// The value token of a string-literal expression.
pub fn string_literal_token_exec<'a>(n: &'a crate::syntax::Node) -> (r: Option<
    &'a crate::syntax::Token,
>)
    ensures
        r is Some ==> string_literal_token(n@) == Some((r->0)@),
        r is None ==> string_literal_token(n@) is None,
{
    if !(n.kind == NodeKind::StringLiteralExpression) || n.slot_count() != 1 {
        return None;
    }
    match n.slot(0) {
        Some(sl) => {
            match sl.as_token() {
                Some(t) => {
                    if t.kind == TokenKind::StringLiteral {
                        Some(t)
                    } else {
                        None
                    }
                },
                None => None,
            }
        },
        None => None,
    }
}

/// The name token of an identifier expression.
pub fn ident_token_exec<'a>(n: &'a crate::syntax::Node) -> (r: Option<&'a crate::syntax::Token>)
    ensures
        r is Some ==> ident_token(n@) == Some((r->0)@),
        r is None ==> ident_token(n@) is None,
{
    if !(n.kind == NodeKind::IdentifierExpression) || n.slot_count() != 1 {
        return None;
    }
    match n.slot(0) {
        Some(sl) => {
            match sl.as_token() {
                Some(t) => {
                    if t.kind == TokenKind::Ident {
                        Some(t)
                    } else {
                        None
                    }
                },
                None => None,
            }
        },
        None => None,
    }
}

/// Computes the state for a `typeof` compared against a string literal.
fn literal_state_exec(
    root: &crate::syntax::Node,
    litpath: Vec<usize>,
    tok: &crate::syntax::Token,
) -> (r: Option<TypeofState>)
    requires
        crate::syntax::node_source(root@).len() <= usize::MAX,
        slot_at(SlotView::Node(root@), litpath@.push(0)) == Some(SlotView::Token(tok@)),
    ensures
        (match r {
            Some(st) => literal_state(root@, litpath@, tok@) == Some(st@),
            None => literal_state(root@, litpath@, tok@) is None,
        }),
{
    let stripped = crate::text::strip_quotes_exec(tok.text.as_str());
    if JsTypeName::from_str(stripped.as_str()).is_some() {
        return None;
    }
    let lowered = crate::text::to_lowercase(stripped.as_str());
    let litcopy = crate::query::copy_path(&litpath);
    let suggestion = match JsTypeName::from_str(lowered.as_str()) {
        Some(t) => Some((litcopy, t)),
        None => None,
    };
    let mut tokpath = litpath;
    tokpath.push(0);
    let full = text_range(root, &tokpath);
    let ghost bound: int = crate::syntax::node_source(root@).len() as int;
    proof {
        crate::location::lemma_subtree_embedding(SlotView::Node(root@), tokpath@);
        assert(slot_source(SlotView::Token(tok@)) == crate::syntax::token_source(tok@));
    }
    let lead = crate::location::trivia_len(&tok.leading, Ghost(bound));
    let textlen = tok.text.as_str().unicode_len();
    let tr = TextRange { start: full.start + lead, end: full.start + lead + textlen };
    proof {
        assert(tr == trimmed_range(root@, tokpath@, tok@));
    }
    Some(TypeofState { error: TypeofError::InvalidLiteral(tr, stripped), suggestion })
}

impl Rule for UseValidTypeof {
    type State = TypeofState;

    open spec fn query_kind() -> NodeKind {
        NodeKind::BinaryExpression
    }

    open spec fn run_spec(root: NodeView, path: Seq<usize>) -> Option<TypeofStateView> {
        typeof_state(root, path)
    }

    open spec fn diagnostic_spec(root: NodeView, path: Seq<usize>, st: TypeofStateView) -> Option<
        DiagnosticView,
    > {
        Some(
            match st.error {
                TypeofErrorView::InvalidLiteral(range, lit) => DiagnosticView {
                    range,
                    severity: Severity::Warning,
                    message: ("Invalid `typeof` comparison value")@,
                    notes: seq![
                        ("not a valid type name")@,
                        ("Invalid `typeof` comparison value")@ + (": \"")@ + lit + (
                        "\" is not a valid type name")@,
                    ],
                },
                TypeofErrorView::InvalidExpression(range) => DiagnosticView {
                    range,
                    severity: Severity::Warning,
                    message: ("Invalid `typeof` comparison value")@,
                    notes: seq![
                        ("not a string literal")@,
                        ("Invalid `typeof` comparison value")@ + (
                        ": this expression is not a string literal")@,
                    ],
                },
            },
        )
    }

    open spec fn action_spec(
        root: NodeView,
        path: Seq<usize>,
        st: TypeofStateView,
        options: AnalyzerOptions,
    ) -> Option<ActionView> {
        match st.suggestion {
            Some((p, t)) => Some(
                ActionView {
                    category: ActionCategory::QuickFix,
                    applicability: Applicability::MaybeIncorrect,
                    message: ("Compare the result of `typeof` with a valid type name")@,
                    base: root,
                    edits: seq![
                        (EditView { path: p, new: SlotView::Node(replacement_literal(t, options)) }),
                    ],
                },
            ),
            None => None,
        }
    }

    fn query_kind_exec() -> (k: NodeKind) {
        NodeKind::BinaryExpression
    }

    fn run(ctx: &RuleContext<'_>) -> (r: Option<TypeofState>) {
        let node = ctx.query();
        let ghost b = node@;
        if node.slot_count() != 3 {
            return None;
        }
        let l = match node.slot(0) {
            Some(sl) => {
                match sl.as_node() {
                    Some(n) => n,
                    None => {
                        return None;
                    },
                }
            },
            None => {
                return None;
            },
        };
        let op = match node.slot(1) {
            Some(sl) => {
                match sl.as_token() {
                    Some(t) => t,
                    None => {
                        return None;
                    },
                }
            },
            None => {
                return None;
            },
        };
        let rgt = match node.slot(2) {
            Some(sl) => {
                match sl.as_node() {
                    Some(n) => n,
                    None => {
                        return None;
                    },
                }
            },
            None => {
                return None;
            },
        };
        if !is_eq_op_exec(op.kind) {
            return None;
        }
        proof {
            assert(binary_parts(b) == Some((l@, op@, rgt@)));
            crate::syntax::lemma_slot_at_push(SlotView::Node(ctx.root@), ctx.path@, 0);
            crate::syntax::lemma_slot_at_push(SlotView::Node(ctx.root@), ctx.path@, 2);
            assert(slot_at(SlotView::Node(ctx.root@), ctx.path@.push(0)) == Some(
                SlotView::Node(l@),
            ));
            assert(slot_at(SlotView::Node(ctx.root@), ctx.path@.push(2)) == Some(
                SlotView::Node(rgt@),
            ));
        }
        let mut lpath = crate::query::copy_path(&ctx.path);
        lpath.push(0);
        let mut rpath = crate::query::copy_path(&ctx.path);
        rpath.push(2);
        let l_is_unary = l.kind == NodeKind::UnaryExpression;
        let r_is_unary = rgt.kind == NodeKind::UnaryExpression;
        let l_is_literal = match l.kind {
            NodeKind::StringLiteralExpression | NodeKind::NumberLiteralExpression => true,
            _ => false,
        };
        let r_is_literal = match rgt.kind {
            NodeKind::StringLiteralExpression | NodeKind::NumberLiteralExpression => true,
            _ => false,
        };
        if l_is_unary && r_is_literal {
            if !is_typeof_unary_exec(l) {
                return None;
            }
            match string_literal_token_exec(rgt) {
                Some(tok) => {
                    proof {
                        crate::syntax::lemma_slot_at_push(
                            SlotView::Node(ctx.root@),
                            ctx.path@.push(2),
                            0,
                        );
                    }
                    literal_state_exec(ctx.root, rpath, tok)
                },
                None => {
                    let range = text_range(ctx.root, &rpath);
                    Some(
                        TypeofState {
                            error: TypeofError::InvalidExpression(range),
                            suggestion: None,
                        },
                    )
                },
            }
        } else if l_is_literal && r_is_unary {
            if !is_typeof_unary_exec(rgt) {
                return None;
            }
            match string_literal_token_exec(l) {
                Some(tok) => {
                    proof {
                        crate::syntax::lemma_slot_at_push(
                            SlotView::Node(ctx.root@),
                            ctx.path@.push(0),
                            0,
                        );
                    }
                    literal_state_exec(ctx.root, lpath, tok)
                },
                None => {
                    let range = text_range(ctx.root, &lpath);
                    Some(
                        TypeofState {
                            error: TypeofError::InvalidExpression(range),
                            suggestion: None,
                        },
                    )
                },
            }
        } else if l_is_unary && r_is_unary {
            let l_typeof = is_typeof_unary_exec(l);
            let r_typeof = is_typeof_unary_exec(rgt);
            if l_typeof && !r_typeof {
                let range = text_range(ctx.root, &rpath);
                Some(TypeofState { error: TypeofError::InvalidExpression(range), suggestion: None })
            } else if r_typeof && !l_typeof {
                let range = text_range(ctx.root, &lpath);
                Some(TypeofState { error: TypeofError::InvalidExpression(range), suggestion: None })
            } else {
                None
            }
        } else if l_is_unary && rgt.kind == NodeKind::IdentifierExpression {
            if !is_typeof_unary_exec(l) {
                return None;
            }
            let range = text_range(ctx.root, &rpath);
            match ident_token_exec(rgt) {
                Some(tok) => {
                    let lowered = crate::text::to_lowercase(tok.text.as_str());
                    let suggestion = match JsTypeName::from_str(lowered.as_str()) {
                        Some(t) => Some((rpath, t)),
                        None => None,
                    };
                    Some(TypeofState { error: TypeofError::InvalidExpression(range), suggestion })
                },
                None => Some(
                    TypeofState { error: TypeofError::InvalidExpression(range), suggestion: None },
                ),
            }
        } else if l.kind == NodeKind::IdentifierExpression && r_is_unary {
            if !is_typeof_unary_exec(rgt) {
                return None;
            }
            let range = text_range(ctx.root, &lpath);
            match ident_token_exec(l) {
                Some(tok) => {
                    let lowered = crate::text::to_lowercase(tok.text.as_str());
                    let suggestion = match JsTypeName::from_str(lowered.as_str()) {
                        Some(t) => Some((lpath, t)),
                        None => None,
                    };
                    Some(TypeofState { error: TypeofError::InvalidExpression(range), suggestion })
                },
                None => Some(
                    TypeofState { error: TypeofError::InvalidExpression(range), suggestion: None },
                ),
            }
        } else if l_is_unary {
            if !is_typeof_unary_exec(l) {
                return None;
            }
            let range = text_range(ctx.root, &rpath);
            Some(TypeofState { error: TypeofError::InvalidExpression(range), suggestion: None })
        } else if r_is_unary {
            if !is_typeof_unary_exec(rgt) {
                return None;
            }
            let range = text_range(ctx.root, &lpath);
            Some(TypeofState { error: TypeofError::InvalidExpression(range), suggestion: None })
        } else {
            None
        }
    }

    fn diagnostic(ctx: &RuleContext<'_>, st: &TypeofState) -> (r: Option<Diagnostic>) {
        let title = "Invalid `typeof` comparison value";
        match &st.error {
            TypeofError::InvalidLiteral(range, literal) => {
                let mut desc = title.to_owned();
                desc.append(": \"");
                desc.append(literal.as_str());
                desc.append("\" is not a valid type name");
                let mut notes: Vec<String> = Vec::new();
                notes.push("not a valid type name".to_owned());
                notes.push(desc);
                let d = Diagnostic {
                    range: *range,
                    severity: Severity::Warning,
                    message: title.to_owned(),
                    notes,
                };
                proof {
                    assert(d@.notes =~= Self::diagnostic_spec(
                        ctx.root@,
                        ctx.path@,
                        st@,
                    )->0.notes);
                }
                Some(d)
            },
            TypeofError::InvalidExpression(range) => {
                let mut desc = title.to_owned();
                desc.append(": this expression is not a string literal");
                let mut notes: Vec<String> = Vec::new();
                notes.push("not a string literal".to_owned());
                notes.push(desc);
                let d = Diagnostic {
                    range: *range,
                    severity: Severity::Warning,
                    message: title.to_owned(),
                    notes,
                };
                proof {
                    assert(d@.notes =~= Self::diagnostic_spec(
                        ctx.root@,
                        ctx.path@,
                        st@,
                    )->0.notes);
                }
                Some(d)
            },
        }
    }

    fn action<'a>(ctx: &RuleContext<'a>, st: &TypeofState) -> (r: Option<RuleAction<'a>>) {
        let (exprpath, tname) = match &st.suggestion {
            Some((p, t)) => (p, *t),
            None => {
                return None;
            },
        };
        let token = if ctx.options.as_preferred_quote().is_double() {
            crate::factory::js_string_literal(tname.as_str())
        } else {
            crate::factory::js_string_literal_single_quotes(tname.as_str())
        };
        let ghost tv = token@;
        let expr = crate::factory::js_string_literal_expression(token);
        proof {
            assert(tv.leading =~= Seq::<crate::trivia::TriviaView>::empty());
            assert(tv.trailing =~= Seq::<crate::trivia::TriviaView>::empty());
            assert(tv =~= replacement_literal(tname, *ctx.options).children[0]->Token_0);
            assert(expr@ =~= replacement_literal(tname, *ctx.options));
        }
        let mut mutation = ctx.root().begin();
        mutation.replace_node(crate::query::copy_path(exprpath), Slot::Node(expr));
        let a = RuleAction {
            category: ActionCategory::QuickFix,
            applicability: Applicability::MaybeIncorrect,
            message: "Compare the result of `typeof` with a valid type name".to_owned(),
            mutation,
        };
        proof {
            assert(a@.edits =~= seq![
                (EditView {
                    path: exprpath@,
                    new: SlotView::Node(replacement_literal(tname, *ctx.options)),
                }),
            ]);
        }
        Some(a)
    }
}

} // verus!
