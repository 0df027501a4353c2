//! The lossless syntax tree: tokens carrying trivia, nodes owning ordered
//! child slots, and the document-order source text they reproduce.

use vstd::prelude::*;

use crate::trivia::TriviaPiece;
use crate::trivia::TriviaView;
use crate::trivia::pieces_view;
use crate::trivia::trivia_text;
use crate::trivia::write_trivia;

verus! {

/// The kind tag of a token.
#[derive(Clone, Copy, PartialEq, Eq, Structural, Debug)]
pub enum TokenKind {
    /// `<`
    LAngle,
    /// `>`
    RAngle,
    /// `/`
    Slash,
    /// `=`
    Assign,
    /// `==`
    Equality,
    /// `===`
    StrictEquality,
    /// `!=`
    Inequality,
    /// `!==`
    StrictInequality,
    /// `typeof`
    Typeof,
    /// `-`
    Minus,
    /// an identifier or keyword-like word
    Ident,
    /// a quoted string literal, quotes included in the text
    StringLiteral,
    /// a numeric literal
    NumberLiteral,
    /// any other token
    Other,
}

/// The kind tag of a node.  The kind determines which child slots are
/// grammatically valid for the node.
#[derive(Clone, Copy, PartialEq, Eq, Structural, Debug)]
pub enum NodeKind {
    /// slots: opening element, child list, closing element
    JsxElement,
    /// slots: `<`, name, type arguments (optional), attribute list, `/`, `>`
    JsxSelfClosingElement,
    /// slots: `<`, name, type arguments (optional), attribute list, `>`
    JsxOpeningElement,
    /// slots: `<`, `/`, name, `>`
    JsxClosingElement,
    /// any number of child slots
    JsxChildList,
    /// any number of attribute slots
    JsxAttributeList,
    /// slots: name, `=`, value
    JsxAttribute,
    /// plain text between tags; slots: one token
    JsxText,
    /// slots: left operand, operator token, right operand
    BinaryExpression,
    /// slots: operator token, operand
    UnaryExpression,
    /// slots: one string literal token
    StringLiteralExpression,
    /// slots: one number literal token
    NumberLiteralExpression,
    /// slots: one identifier token
    IdentifierExpression,
    /// any other construct
    Other,
}

/// The smallest tree leaf: a kind tag, its exact source text, and the
/// leading and trailing trivia attached to it.  Immutable once built.
#[derive(Debug)]
pub struct Token {
    pub kind: TokenKind,
    pub text: String,
    pub leading: Vec<TriviaPiece>,
    pub trailing: Vec<TriviaPiece>,
}

/// Ghost image of a token.
#[verifier::ext_equal]
pub ghost struct TokenView {
    pub kind: TokenKind,
    pub text: Seq<char>,
    pub leading: Seq<TriviaView>,
    pub trailing: Seq<TriviaView>,
}

impl View for Token {
    type V = TokenView;

    open spec fn view(&self) -> TokenView {
        TokenView {
            kind: self.kind,
            text: self.text@,
            leading: pieces_view(self.leading@),
            trailing: pieces_view(self.trailing@),
        }
    }
}

/// The source text a token reproduces: leading trivia, then the token's own
/// text, then trailing trivia.
pub open spec fn token_source(t: TokenView) -> Seq<char> {
    trivia_text(t.leading) + t.text + trivia_text(t.trailing)
}

/// One child slot of a node: a nested node, a token, or an empty optional
/// slot.
#[derive(Debug)]
pub enum Slot {
    Node(Node),
    Token(Token),
    Empty,
}

/// A node: a kind tag and an ordered sequence of child slots.  Node identity
/// is structural: two nodes with equal kinds and equal children are
/// interchangeable.
#[derive(Debug)]
pub struct Node {
    pub kind: NodeKind,
    pub children: Vec<Slot>,
}

/// Ghost image of a child slot.
#[verifier::ext_equal]
pub ghost enum SlotView {
    Node(NodeView),
    Token(TokenView),
    Empty,
}

/// Ghost image of a node.
#[verifier::ext_equal]
pub ghost struct NodeView {
    pub kind: NodeKind,
    pub children: Seq<SlotView>,
}

/// The ghost image of a slot.
pub open spec fn slot_view(s: Slot) -> SlotView
    decreases s,
{
    match s {
        Slot::Node(n) => SlotView::Node(node_view(n)),
        Slot::Token(t) => SlotView::Token(t@),
        Slot::Empty => SlotView::Empty,
    }
}

/// The ghost image of a node, children included.
pub open spec fn node_view(n: Node) -> NodeView
    decreases n,
{
    NodeView { kind: n.kind, children: slots_view(n.children@) }
}

/// The ghost images of a sequence of slots, in order.
pub open spec fn slots_view(ss: Seq<Slot>) -> Seq<SlotView>
    decreases ss,
{
    if ss.len() == 0 {
        Seq::empty()
    } else {
        seq![slot_view(ss[0])] + slots_view(ss.drop_first())
    }
}

/// `slots_view` maps the slots one for one.
pub broadcast proof fn lemma_slots_view(ss: Seq<Slot>)
    ensures
        (#[trigger] slots_view(ss)).len() == ss.len(),
        forall|i: int| 0 <= i < ss.len() ==> slots_view(ss)[i] == slot_view(ss[i]),
    decreases ss.len(),
{
    if ss.len() > 0 {
        lemma_slots_view(ss.drop_first());
    }
}

impl View for Slot {
    type V = SlotView;

    open spec fn view(&self) -> SlotView {
        slot_view(*self)
    }
}

impl View for Node {
    type V = NodeView;

    open spec fn view(&self) -> NodeView {
        node_view(*self)
    }
}

/// The source text of a slot: nothing for an empty slot, the token's source
/// for a token, and the children's sources in order for a node.
pub open spec fn slot_source(s: SlotView) -> Seq<char>
    decreases s,
{
    match s {
        SlotView::Node(n) => node_source(n),
        SlotView::Token(t) => token_source(t),
        SlotView::Empty => Seq::empty(),
    }
}

/// The source text of a node: its children's sources concatenated in
/// document order.
pub open spec fn node_source(n: NodeView) -> Seq<char>
    decreases n,
{
    slots_source(n.children)
}

/// The concatenated source text of a sequence of slots, in order.
pub open spec fn slots_source(ss: Seq<SlotView>) -> Seq<char>
    decreases ss,
{
    if ss.len() == 0 {
        Seq::empty()
    } else {
        slot_source(ss[0]) + slots_source(ss.drop_first())
    }
}

/// Appending a slot appends its source text.
pub proof fn lemma_slots_source_push(ss: Seq<SlotView>, s: SlotView)
    ensures
        slots_source(ss.push(s)) == slots_source(ss) + slot_source(s),
    decreases ss.len(),
{
    if ss.len() == 0 {
        assert(ss.push(s).drop_first() =~= Seq::<SlotView>::empty());
        assert(ss.push(s)[0] == s);
        assert(slots_source(Seq::<SlotView>::empty()) =~= Seq::<char>::empty());
        assert(slot_source(s) + Seq::<char>::empty() =~= Seq::<char>::empty() + slot_source(s));
        assert(slots_source(ss.push(s)) =~= slots_source(ss) + slot_source(s));
    } else {
        assert(ss.push(s).drop_first() =~= ss.drop_first().push(s));
        assert(ss.push(s)[0] == ss[0]);
        lemma_slots_source_push(ss.drop_first(), s);
        assert(slot_source(ss[0]) + (slots_source(ss.drop_first()) + slot_source(s)) =~= (
        slot_source(ss[0]) + slots_source(ss.drop_first())) + slot_source(s));
        assert(slots_source(ss.push(s)) =~= slots_source(ss) + slot_source(s));
    }
}

impl Token {
    /// Builds a fresh, detached token with the given kind, exact text and
    /// trivia.
    pub fn new_detached(
        kind: TokenKind,
        text: String,
        leading: Vec<TriviaPiece>,
        trailing: Vec<TriviaPiece>,
    ) -> (r: Token)
        ensures
            r@ == (TokenView {
                kind,
                text: text@,
                leading: pieces_view(leading@),
                trailing: pieces_view(trailing@),
            }),
    {
        Token { kind, text, leading, trailing }
    }

    /// The same token with its leading trivia replaced.
    pub fn with_leading_trivia(self, leading: Vec<TriviaPiece>) -> (r: Token)
        ensures
            r@ == (TokenView { leading: pieces_view(leading@), ..self@ }),
    {
        Token { kind: self.kind, text: self.text, leading, trailing: self.trailing }
    }
}

/// Copies a trivia list piece for piece.
pub fn copy_pieces(v: &Vec<TriviaPiece>) -> (r: Vec<TriviaPiece>)
    ensures
        r@ == v@,
{
    let mut r: Vec<TriviaPiece> = Vec::new();
    let mut i: usize = 0;
    while i < v.len()
        invariant
            i <= v.len(),
            r@ =~= v@.take(i as int),
        decreases v.len() - i,
    {
        r.push(v[i].clone());
        i = i + 1;
    }
    proof {
        assert(v@.take(v@.len() as int) =~= v@);
    }
    r
}

impl Clone for Token {
    fn clone(&self) -> (r: Self)
        ensures
            r@ == self@,
    {
        Token {
            kind: self.kind,
            text: self.text.clone(),
            leading: copy_pieces(&self.leading),
            trailing: copy_pieces(&self.trailing),
        }
    }
}

/// Copies a slot, children and all.  The copy is structurally identical.
pub fn copy_slot(s: &Slot) -> (r: Slot)
    ensures
        r@ == s@,
    decreases *s,
{
    match s {
        Slot::Node(n) => Slot::Node(copy_node(n)),
        Slot::Token(t) => Slot::Token(t.clone()),
        Slot::Empty => Slot::Empty,
    }
}

/// Copies a node, children and all.  The copy is structurally identical.
pub fn copy_node(n: &Node) -> (r: Node)
    ensures
        r@ == n@,
    decreases *n,
{
    let mut children: Vec<Slot> = Vec::new();
    let mut i: usize = 0;
    while i < n.children.len()
        invariant
            i <= n.children.len(),
            children@.len() == i,
            forall|j: int|
                0 <= j < i ==> slot_view(#[trigger] children@[j]) == slot_view(n.children@[j]),
        decreases n.children.len() - i,
    {
        proof {
            assert(decreases_to!(*n => n.children@[i as int]));
        }
        children.push(copy_slot(&n.children[i]));
        i = i + 1;
    }
    let r = Node { kind: n.kind, children };
    proof {
        lemma_slots_view(r.children@);
        lemma_slots_view(n.children@);
        assert(slots_view(r.children@) =~= slots_view(n.children@));
    }
    r
}

impl Clone for Slot {
    fn clone(&self) -> (r: Self)
        ensures
            r@ == self@,
    {
        copy_slot(self)
    }
}

impl Clone for Node {
    fn clone(&self) -> (r: Self)
        ensures
            r@ == self@,
    {
        copy_node(self)
    }
}

/// Writes the exact source of a token onto `out`: leading trivia, text,
/// trailing trivia.
pub fn write_token(t: &Token, out: &mut String)
    ensures
        final(out)@ == old(out)@ + token_source(t@),
{
    write_trivia(&t.leading, out);
    out.append(t.text.as_str());
    write_trivia(&t.trailing, out);
}

/// Writes the exact source of a slot onto `out`.
pub fn write_slot(s: &Slot, out: &mut String)
    ensures
        final(out)@ == old(out)@ + slot_source(s@),
    decreases *s,
{
    match s {
        Slot::Node(n) => write_node(n, out),
        Slot::Token(t) => write_token(t, out),
        Slot::Empty => {},
    }
}

/// Writes the exact source of a node onto `out`: every child slot in
/// document order.
pub fn write_node(n: &Node, out: &mut String)
    ensures
        final(out)@ == old(out)@ + node_source(n@),
    decreases *n,
{
    let ghost views = n@.children;
    proof {
        lemma_slots_view(n.children@);
    }
    let mut i: usize = 0;
    while i < n.children.len()
        invariant
            i <= n.children.len(),
            views == n@.children,
            views.len() == n.children@.len(),
            forall|j: int| 0 <= j < views.len() ==> views[j] == slot_view(n.children@[j]),
            out@ == old(out)@ + slots_source(views.take(i as int)),
        decreases n.children.len() - i,
    {
        proof {
            assert(decreases_to!(*n => n.children@[i as int]));
            assert(views.take(i + 1) =~= views.take(i as int).push(views[i as int]));
            lemma_slots_source_push(views.take(i as int), views[i as int]);
        }
        write_slot(&n.children[i], out);
        i = i + 1;
    }
    proof {
        assert(views.take(views.len() as int) =~= views);
    }
}

/// Serializes a tree back to its exact source text: concatenating every
/// token's leading trivia, text and trailing trivia in document order.
pub fn source_text(n: &Node) -> (r: String)
    ensures
        r@ == node_source(n@),
{
    let mut out = String::new();
    write_node(n, &mut out);
    out
}

/// The slot reached from `s` by following the child indices in `path`, or
/// `None` if the path leads out of the tree.  The empty path reaches `s`
/// itself.  A path is the identity of one occurrence of a (structurally
/// identified) node or token in a tree.
pub open spec fn slot_at(s: SlotView, path: Seq<usize>) -> Option<SlotView>
    decreases path.len(),
{
    if path.len() == 0 {
        Some(s)
    } else {
        match s {
            SlotView::Node(n) => {
                if (path[0] as int) < n.children.len() {
                    slot_at(n.children[path[0] as int], path.drop_first())
                } else {
                    None
                }
            },
            _ => None,
        }
    }
}

/// The tree `s` with the slot at `path` replaced by `new`.  Every ancestor
/// on the path to the edit is rebuilt with the one affected child slot
/// exchanged; everything off the path is left as it was.  A path that leads
/// out of the tree leaves `s` unchanged.
pub open spec fn replace_at(s: SlotView, path: Seq<usize>, new: SlotView) -> SlotView
    decreases path.len(),
{
    if path.len() == 0 {
        new
    } else {
        match s {
            SlotView::Node(n) => {
                if (path[0] as int) < n.children.len() {
                    SlotView::Node(
                        NodeView {
                            kind: n.kind,
                            children: n.children.update(
                                path[0] as int,
                                replace_at(n.children[path[0] as int], path.drop_first(), new),
                            ),
                        },
                    )
                } else {
                    s
                }
            },
            _ => s,
        }
    }
}

/// The tokens of a subtree, in document order.
pub open spec fn slot_tokens(s: SlotView) -> Seq<TokenView>
    decreases s, 0nat,
{
    match s {
        SlotView::Node(n) => slots_tokens(n.children),
        SlotView::Token(t) => seq![t],
        SlotView::Empty => Seq::empty(),
    }
}

/// The tokens of a sequence of slots, in document order.
pub open spec fn slots_tokens(cs: Seq<SlotView>) -> Seq<TokenView>
    decreases cs, 1nat,
{
    if cs.len() == 0 {
        Seq::empty()
    } else {
        slot_tokens(cs[0]) + slots_tokens(cs.drop_first())
    }
}

/// The concatenation of every token's leading trivia, text and trailing
/// trivia, in order.
pub open spec fn tokens_source(ts: Seq<TokenView>) -> Seq<char>
    decreases ts.len(),
{
    if ts.len() == 0 {
        Seq::empty()
    } else {
        token_source(ts[0]) + tokens_source(ts.drop_first())
    }
}

/// Concatenating two token lists concatenates their sources.
pub proof fn lemma_tokens_source_concat(a: Seq<TokenView>, b: Seq<TokenView>)
    ensures
        tokens_source(a + b) == tokens_source(a) + tokens_source(b),
    decreases a.len(),
{
    if a.len() == 0 {
        assert(a + b =~= b);
        assert(tokens_source(a) =~= Seq::<char>::empty());
        assert(Seq::<char>::empty() + tokens_source(b) =~= tokens_source(b));
    } else {
        assert((a + b).drop_first() =~= a.drop_first() + b);
        assert((a + b)[0] == a[0]);
        lemma_tokens_source_concat(a.drop_first(), b);
        assert(token_source(a[0]) + (tokens_source(a.drop_first()) + tokens_source(b)) =~= (
        token_source(a[0]) + tokens_source(a.drop_first())) + tokens_source(b));
        assert(tokens_source(a + b) =~= tokens_source(a) + tokens_source(b));
    }
}

/// Round trip: the source text of any tree is exactly the concatenation of
/// every token's leading trivia, text and trailing trivia in document
/// order.  This holds of every tree value, so it holds both before and
/// after any committed mutation.
pub proof fn lemma_round_trip(s: SlotView)
    ensures
        slot_source(s) == tokens_source(slot_tokens(s)),
    decreases s, 0nat,
{
    match s {
        SlotView::Node(n) => {
            lemma_round_trip_slots(n.children);
        },
        SlotView::Token(t) => {
            assert(seq![t].drop_first() =~= Seq::<TokenView>::empty());
            assert(tokens_source(Seq::<TokenView>::empty()) =~= Seq::<char>::empty());
            assert(token_source(t) + Seq::<char>::empty() =~= token_source(t));
        },
        SlotView::Empty => {},
    }
}

/// Round trip over a sequence of slots.
pub proof fn lemma_round_trip_slots(cs: Seq<SlotView>)
    ensures
        slots_source(cs) == tokens_source(slots_tokens(cs)),
    decreases cs, 1nat,
{
    if cs.len() == 0 {
    } else {
        lemma_round_trip(cs[0]);
        lemma_round_trip_slots(cs.drop_first());
        lemma_tokens_source_concat(slot_tokens(cs[0]), slots_tokens(cs.drop_first()));
    }
}

/// Round trip for a whole tree: serializing a node reproduces exactly its
/// tokens' texts and trivia in document order.
pub proof fn lemma_node_round_trip(n: NodeView)
    ensures
        node_source(n) == tokens_source(slot_tokens(SlotView::Node(n))),
{
    lemma_round_trip(SlotView::Node(n));
}

/// Extending a path by one step descends into the reached node's child.
pub proof fn lemma_slot_at_push(s: SlotView, p: Seq<usize>, i: usize)
    ensures
        slot_at(s, p.push(i)) == (match slot_at(s, p) {
            Some(SlotView::Node(n)) => {
                if (i as int) < n.children.len() {
                    Some(n.children[i as int])
                } else {
                    None
                }
            },
            _ => None,
        }),
    decreases p.len(),
{
    if p.len() == 0 {
        assert(p.push(i)[0] == i);
        assert(p.push(i).drop_first() =~= Seq::<usize>::empty());
        assert(slot_at(s, p) == Some(s));
        match s {
            SlotView::Node(n) => {
                if (i as int) < n.children.len() {
                    assert(slot_at(n.children[i as int], Seq::<usize>::empty()) == Some(
                        n.children[i as int],
                    ));
                }
            },
            _ => {},
        }
    } else {
        assert(p.push(i)[0] == p[0]);
        assert(p.push(i).drop_first() =~= p.drop_first().push(i));
        match s {
            SlotView::Node(n) => {
                if (p[0] as int) < n.children.len() {
                    lemma_slot_at_push(n.children[p[0] as int], p.drop_first(), i);
                }
            },
            _ => {},
        }
    }
}

/// Whether `a` is a prefix of `b` (equality included).
pub open spec fn is_prefix_of(a: Seq<usize>, b: Seq<usize>) -> bool {
    a.len() <= b.len() && a == b.take(a.len() as int)
}

/// The node reached from `root` by following `path`, or `None` when the
/// path does not lead to a node slot.
pub fn node_at_path<'a>(root: &'a Node, path: &Vec<usize>) -> (r: Option<&'a Node>)
    ensures
        match r {
            Some(m) => slot_at(SlotView::Node(root@), path@) == Some(SlotView::Node(m@)),
            None => !(slot_at(SlotView::Node(root@), path@) matches Some(SlotView::Node(_))),
        },
{
    let mut cur: &Node = root;
    let mut i: usize = 0;
    proof {
        assert(path@.skip(0) =~= path@);
    }
    while i < path.len()
        invariant
            i <= path.len(),
            slot_at(SlotView::Node(root@), path@) == slot_at(
                SlotView::Node(cur@),
                path@.skip(i as int),
            ),
        decreases path.len() - i,
    {
        proof {
            lemma_slots_view(cur.children@);
            assert(path@.skip(i as int).len() > 0);
            assert(path@.skip(i as int)[0] == path@[i as int]);
            assert(path@.skip(i as int).drop_first() =~= path@.skip(i + 1));
        }
        let idx = path[i];
        if idx >= cur.children.len() {
            return None;
        }
        match &cur.children[idx] {
            Slot::Node(m) => {
                cur = m;
                i = i + 1;
            },
            _ => {
                proof {
                    let rest = path@.skip(i as int).drop_first();
                    assert(slot_at(SlotView::Node(cur@), path@.skip(i as int)) == slot_at(
                        cur@.children[idx as int],
                        rest,
                    ));
                    assert(!(cur@.children[idx as int] matches SlotView::Node(_)));
                    if rest.len() == 0 {
                        assert(slot_at(cur@.children[idx as int], rest) == Some(
                            cur@.children[idx as int],
                        ));
                    } else {
                        assert(slot_at(cur@.children[idx as int], rest) is None);
                    }
                }
                return None;
            },
        }
    }
    proof {
        assert(path@.skip(path@.len() as int) =~= Seq::<usize>::empty());
    }
    Some(cur)
}

impl Slot {
    /// The node held by this slot, if it holds one.
    pub fn as_node(&self) -> (r: Option<&Node>)
        ensures
            match r {
                Some(n) => self@ == SlotView::Node(n@),
                None => !(self@ matches SlotView::Node(_)),
            },
    {
        match self {
            Slot::Node(n) => Some(n),
            Slot::Token(_) => None,
            Slot::Empty => None,
        }
    }

    /// The token held by this slot, if it holds one.
    pub fn as_token(&self) -> (r: Option<&Token>)
        ensures
            match r {
                Some(t) => self@ == SlotView::Token(t@),
                None => !(self@ matches SlotView::Token(_)),
            },
    {
        match self {
            Slot::Node(_) => None,
            Slot::Token(t) => Some(t),
            Slot::Empty => None,
        }
    }
}

impl Node {
    /// The `i`-th child slot, or `None` past the end.
    pub fn slot(&self, i: usize) -> (r: Option<&Slot>)
        ensures
            match r {
                Some(s) => i < self@.children.len() && self@.children[i as int] == s@,
                None => i >= self@.children.len(),
            },
    {
        proof {
            lemma_slots_view(self.children@);
        }
        if i < self.children.len() {
            Some(&self.children[i])
        } else {
            None
        }
    }

    /// How many child slots the node has.
    pub fn slot_count(&self) -> (r: usize)
        ensures
            r == self@.children.len(),
    {
        proof {
            lemma_slots_view(self.children@);
        }
        self.children.len()
    }
}

} // verus!
