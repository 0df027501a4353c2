//! Prevents extra closing tags for elements without children: `<div></div>`
//! becomes `<div />`.  The fix moves the opening tag's closing-angle
//! leading trivia onto the synthesized slash token and inserts a single
//! space only when no whitespace already precedes the bracket, so trivia is
//! moved, never duplicated or dropped.

use vstd::prelude::*;

use crate::diagnostic::ActionCategory;
use crate::diagnostic::ActionView;
use crate::diagnostic::Applicability;
use crate::diagnostic::Diagnostic;
use crate::diagnostic::DiagnosticView;
use crate::diagnostic::RuleAction;
use crate::diagnostic::Severity;
use crate::location::TextRange;
use crate::location::offset_of;
use crate::location::text_range;
use crate::mutation::EditView;
use crate::rule::AnalyzerOptions;
use crate::rule::Rule;
use crate::rule::RuleContext;
use crate::syntax::Node;
use crate::syntax::NodeKind;
use crate::syntax::NodeView;
use crate::syntax::Slot;
use crate::syntax::SlotView;
use crate::syntax::Token;
use crate::syntax::TokenKind;
use crate::syntax::TokenView;
use crate::syntax::slot_at;
use crate::syntax::slot_source;
use crate::trivia::TriviaKind;
use crate::trivia::TriviaPiece;
use crate::trivia::TriviaView;
use crate::trivia::trivia_text;

verus! {

/// The last token inside a slot, in document order.
pub open spec fn last_token(s: SlotView) -> Option<TokenView>
    decreases s,
{
    match s {
        SlotView::Token(t) => Some(t),
        SlotView::Empty => None,
        SlotView::Node(n) => last_token_slots(n.children),
    }
}

/// The last token among a sequence of slots.
pub open spec fn last_token_slots(cs: Seq<SlotView>) -> Option<TokenView>
    decreases cs,
{
    if cs.len() == 0 {
        None
    } else {
        match last_token(cs[cs.len() - 1]) {
            Some(t) => Some(t),
            None => last_token_slots(cs.drop_last()),
        }
    }
}

/// Whether the matched element has no children at all.
pub open spec fn element_childless(el: NodeView) -> bool {
    &&& el.kind == NodeKind::JsxElement
    &&& el.children.len() == 3
    &&& (el.children[1] matches SlotView::Node(cl) && cl.kind == NodeKind::JsxChildList
        && cl.children.len() == 0)
}

/// The element's opening element, when it has the expected shape.
pub open spec fn opening_of(el: NodeView) -> Option<NodeView> {
    if el.children.len() == 3 {
        match el.children[0] {
            SlotView::Node(open) => {
                if open.kind == NodeKind::JsxOpeningElement && open.children.len() == 5 {
                    Some(open)
                } else {
                    None
                }
            },
            _ => None,
        }
    } else {
        None
    }
}

/// Whether the text ends with a space character.
pub open spec fn ends_space(s: Seq<char>) -> bool {
    s.len() > 0 && s.last() == ' '
}

/// Whether a space must be inserted before the slash: true when no token
/// precedes the closing angle or the preceding token's trailing trivia does
/// not end with a space.
pub open spec fn needs_space(open: NodeView) -> bool {
    match last_token_slots(open.children.take(4)) {
        Some(t) => !ends_space(trivia_text(t.trailing)),
        None => true,
    }
}

/// The trivia spliced onto the slash token: the closing angle's own leading
/// trivia, plus one synthetic space only when that trivia is empty and no
/// whitespace already precedes the bracket.
pub open spec fn slash_leading(open: NodeView, r: TokenView) -> Seq<TriviaView> {
    if r.leading.len() == 0 && needs_space(open) {
        seq![TriviaView { kind: TriviaKind::Whitespace, text: seq![' '] }]
    } else {
        r.leading
    }
}

/// The self-closing element that replaces the matched element: the opening
/// tag's pieces, a slash token carrying the moved trivia, and the closing
/// angle stripped of its leading trivia.
pub open spec fn fix_of(el: NodeView) -> Option<NodeView> {
    match opening_of(el) {
        Some(open) => {
            match (open.children[0], open.children[4]) {
                (SlotView::Token(l), SlotView::Token(r)) => {
                    if l.kind == TokenKind::LAngle && r.kind == TokenKind::RAngle {
                        Some(
                            NodeView {
                                kind: NodeKind::JsxSelfClosingElement,
                                children: seq![
                                    SlotView::Token(l),
                                    open.children[1],
                                    open.children[2],
                                    open.children[3],
                                    SlotView::Token(
                                        TokenView {
                                            kind: TokenKind::Slash,
                                            text: ("/")@,
                                            leading: slash_leading(open, r),
                                            trailing: Seq::empty(),
                                        },
                                    ),
                                    SlotView::Token(TokenView { leading: Seq::empty(), ..r }),
                                ],
                            },
                        )
                    } else {
                        None
                    }
                },
                _ => None,
            }
        },
        None => None,
    }
}

/// The offered replacement is always a self-closing element, never a plain
/// element: after the fix is committed, the rule's query no longer matches
/// at that path, so one application reaches a fixed point there.
pub proof fn lemma_fix_self_closing(el: NodeView)
    ensures
        (match fix_of(el) {
            Some(n) => n.kind == NodeKind::JsxSelfClosingElement && n.kind != NodeKind::JsxElement,
            None => true,
        }),
{
}

/// Marker state: the matched element was found childless.
#[derive(Clone, Copy, PartialEq, Eq, Structural, Debug)]
pub struct Childless;

impl View for Childless {
    type V = Childless;

    open spec fn view(&self) -> Childless {
        Childless
    }
}

/// Flags JSX elements without children and rewrites them to self-closing
/// form.
pub struct UseSelfClosingElements;

/// The last token inside a slot, in document order.
pub fn last_token_exec(s: &Slot) -> (r: Option<Token>)
    ensures
        r is Some ==> last_token(s@) == Some((r->0)@),
        r is None ==> last_token(s@) is None,
    decreases *s, 0nat,
{
    let res: Option<Token> = match s {
        Slot::Token(t) => Some(t.clone()),
        Slot::Empty => None,
        Slot::Node(n) => {
            proof {
                crate::syntax::lemma_slots_view(n.children@);
                assert(decreases_to!(*s => *n));
                assert(s@ == SlotView::Node(n@));
                assert(n@.children.len() == n.children@.len());
                assert(n@.children.take(n@.children.len() as int) =~= n@.children);
                assert(last_token(s@) == last_token_slots(n@.children));
            }
            last_token_upto(n, n.children.len())
        },
    };
    res
}

/// The last token among the first `j` children of `n`.
pub fn last_token_upto(n: &Node, j: usize) -> (r: Option<Token>)
    requires
        j <= n.children.len(),
    ensures
        r is Some ==> last_token_slots(n@.children.take(j as int)) == Some((r->0)@),
        r is None ==> last_token_slots(n@.children.take(j as int)) is None,
    decreases *n, 1nat + j as nat,
{
    proof {
        crate::syntax::lemma_slots_view(n.children@);
    }
    if j == 0 {
        proof {
            assert(n@.children.take(0) =~= Seq::<SlotView>::empty());
        }
        None
    } else {
        proof {
            assert(decreases_to!(*n => n.children@[j - 1]));
            assert(n@.children.take(j as int)[j - 1] == n@.children[j - 1]);
            assert(n@.children.take(j as int).drop_last() =~= n@.children.take(j - 1));
        }
        match last_token_exec(&n.children[j - 1]) {
            Some(t) => Some(t),
            None => last_token_upto(n, j - 1),
        }
    }
}

impl Rule for UseSelfClosingElements {
    type State = Childless;

    open spec fn query_kind() -> NodeKind {
        NodeKind::JsxElement
    }

    open spec fn run_spec(root: NodeView, path: Seq<usize>) -> Option<Childless> {
        match slot_at(SlotView::Node(root), path) {
            Some(SlotView::Node(el)) => if element_childless(el) {
                Some(Childless)
            } else {
                None
            },
            _ => None,
        }
    }

    open spec fn diagnostic_spec(root: NodeView, path: Seq<usize>, st: Childless) -> Option<
        DiagnosticView,
    > {
        match slot_at(SlotView::Node(root), path) {
            Some(el_slot) => Some(
                DiagnosticView {
                    range: TextRange {
                        start: offset_of(SlotView::Node(root), path) as usize,
                        end: (offset_of(SlotView::Node(root), path) + slot_source(
                            el_slot,
                        ).len()) as usize,
                    },
                    severity: Severity::Warning,
                    message: (
                    "JSX elements without children should be marked as self-closing. In JSX, it is valid for any element to be self-closing.")@,
                    notes: Seq::empty(),
                },
            ),
            None => None,
        }
    }

    open spec fn action_spec(
        root: NodeView,
        path: Seq<usize>,
        st: Childless,
        options: AnalyzerOptions,
    ) -> Option<ActionView> {
        match slot_at(SlotView::Node(root), path) {
            Some(SlotView::Node(el)) => {
                match fix_of(el) {
                    Some(newnode) => Some(
                        ActionView {
                            category: ActionCategory::QuickFix,
                            applicability: Applicability::MaybeIncorrect,
                            message: ("Use a SelfClosingElement instead")@,
                            base: root,
                            edits: seq![
                                (EditView { path, new: SlotView::Node(newnode) }),
                            ],
                        },
                    ),
                    None => None,
                }
            },
            _ => None,
        }
    }

    fn query_kind_exec() -> (k: NodeKind) {
        NodeKind::JsxElement
    }

    fn run(ctx: &RuleContext<'_>) -> (r: Option<Childless>) {
        let node = ctx.query();
        if node.slot_count() != 3 {
            return None;
        }
        match node.slot(1) {
            Some(sl) => {
                match sl.as_node() {
                    Some(cl) => {
                        if cl.kind == NodeKind::JsxChildList && cl.slot_count() == 0 {
                            Some(Childless)
                        } else {
                            None
                        }
                    },
                    None => None,
                }
            },
            None => None,
        }
    }

    fn diagnostic(ctx: &RuleContext<'_>, st: &Childless) -> (r: Option<Diagnostic>) {
        let range = text_range(ctx.root, &ctx.path);
        let message =
            "JSX elements without children should be marked as self-closing. In JSX, it is valid for any element to be self-closing.".to_owned();
        let d = Diagnostic { range, severity: Severity::Warning, message, notes: Vec::new() };
        proof {
            assert(d@.notes =~= Seq::<Seq<char>>::empty());
        }
        Some(d)
    }

    fn action<'a>(ctx: &RuleContext<'a>, st: &Childless) -> (r: Option<RuleAction<'a>>) {
        let node = ctx.query();
        let ghost el = node@;
        if node.slot_count() != 3 {
            return None;
        }
        let open_slot = match node.slot(0) {
            Some(sl) => sl,
            None => {
                return None;
            },
        };
        let open = match open_slot.as_node() {
            Some(o) => o,
            None => {
                return None;
            },
        };
        if !(open.kind == NodeKind::JsxOpeningElement) || open.slot_count() != 5 {
            return None;
        }
        let l_angle = match match open.slot(0) {
            Some(sl) => sl.as_token(),
            None => None,
        } {
            Some(t) => t,
            None => {
                return None;
            },
        };
        let r_angle = match match open.slot(4) {
            Some(sl) => sl.as_token(),
            None => None,
        } {
            Some(t) => t,
            None => {
                return None;
            },
        };
        if !(l_angle.kind == TokenKind::LAngle) || !(r_angle.kind == TokenKind::RAngle) {
            return None;
        }
        let name = match open.slot(1) {
            Some(sl) => crate::syntax::copy_slot(sl),
            None => {
                return None;
            },
        };
        let type_arguments = match open.slot(2) {
            Some(sl) => crate::syntax::copy_slot(sl),
            None => {
                return None;
            },
        };
        let attributes = match open.slot(3) {
            Some(sl) => crate::syntax::copy_slot(sl),
            None => {
                return None;
            },
        };
        let ghost openv = open@;
        let mut leading = crate::syntax::copy_pieces(&r_angle.leading);
        proof {
            crate::syntax::lemma_slots_view(open.children@);
            assert(open.children@.len() == openv.children.len());
        }
        let prev = last_token_upto(open, 4);
        let need_extra_whitespace = match &prev {
            Some(t) => {
                let mut txt = String::new();
                crate::trivia::write_trivia(&t.trailing, &mut txt);
                !crate::text::ends_with_space(txt.as_str())
            },
            None => true,
        };
        if leading.len() == 0 && need_extra_whitespace {
            leading.push(TriviaPiece::new(TriviaKind::Whitespace, " ".to_owned()));
            proof {
                reveal_strlit(" ");
                assert((" ")@ =~= seq![' ']);
            }
        }
        proof {
            assert(crate::trivia::pieces_view(leading@) =~= slash_leading(openv, r_angle@));
        }
        let slash = crate::syntax::Token::new_detached(
            TokenKind::Slash,
            "/".to_owned(),
            leading,
            Vec::new(),
        );
        let r2 = r_angle.clone().with_leading_trivia(Vec::new());
        let newnode = crate::factory::jsx_self_closing_element(
            l_angle.clone(),
            name,
            attributes,
            slash,
            r2,
        ).with_type_arguments(type_arguments).build();
        proof {
            assert(crate::trivia::pieces_view(Seq::<TriviaPiece>::empty()) =~= Seq::<
                TriviaView,
            >::empty());
            assert(fix_of(el) is Some);
            assert(newnode@.children =~= fix_of(el)->0.children);
            assert(newnode@ == fix_of(el)->0);
        }
        let mut mutation = ctx.root().begin();
        mutation.replace_node(crate::query::copy_path(&ctx.path), Slot::Node(newnode));
        let a = RuleAction {
            category: ActionCategory::QuickFix,
            applicability: Applicability::MaybeIncorrect,
            message: "Use a SelfClosingElement instead".to_owned(),
            mutation,
        };
        proof {
            assert(a@.edits =~= seq![
                (EditView {
                    path: ctx.path@,
                    new: SlotView::Node(fix_of(el)->0),
                }),
            ]);
        }
        Some(a)
    }
}

} // verus!
