//! Source locations: the character offset and extent of any subtree,
//! measured against the exact source text the tree reproduces.

use vstd::prelude::*;

use crate::syntax::Node;
use crate::syntax::NodeView;
use crate::syntax::Slot;
use crate::syntax::SlotView;
use crate::syntax::Token;
use crate::syntax::lemma_slots_view;
use crate::syntax::node_source;
use crate::syntax::slot_at;
use crate::syntax::slot_source;
use crate::syntax::slots_source;
use crate::syntax::token_source;
use crate::trivia::TriviaView;
use crate::trivia::lemma_trivia_text_push;
use crate::trivia::pieces_view;
use crate::trivia::trivia_text;

verus! {

/// A span of the source text, in character offsets from the start of the
/// tree's source: `start` inclusive, `end` exclusive.
#[derive(Clone, Copy, PartialEq, Eq, Structural, Debug)]
pub struct TextRange {
    pub start: usize,
    pub end: usize,
}

/// The character offset, within the source of `s`, at which the source of
/// the slot at `path` begins.
pub open spec fn offset_of(s: SlotView, path: Seq<usize>) -> int
    decreases path.len(),
{
    if path.len() == 0 {
        0
    } else {
        match s {
            SlotView::Node(n) => {
                if (path[0] as int) < n.children.len() {
                    slots_source(n.children.take(path[0] as int)).len() + offset_of(
                        n.children[path[0] as int],
                        path.drop_first(),
                    )
                } else {
                    0
                }
            },
            _ => 0,
        }
    }
}

/// Splitting a slot sequence splits its source text.
pub proof fn lemma_slots_source_split(cs: Seq<SlotView>, m: int)
    requires
        0 <= m <= cs.len(),
    ensures
        slots_source(cs) == slots_source(cs.take(m)) + slots_source(cs.skip(m)),
    decreases m,
{
    if m == 0 {
        assert(cs.take(0) =~= Seq::<SlotView>::empty());
        assert(cs.skip(0) =~= cs);
        assert(slots_source(cs.take(0)) =~= Seq::<char>::empty());
        assert(Seq::<char>::empty() + slots_source(cs) =~= slots_source(cs));
    } else {
        lemma_slots_source_split(cs.drop_first(), m - 1);
        assert(cs.drop_first().take(m - 1) =~= cs.take(m).drop_first());
        assert(cs.drop_first().skip(m - 1) =~= cs.skip(m));
        assert(cs.take(m)[0] == cs[0]);
        assert(slot_source(cs[0]) + (slots_source(cs.take(m).drop_first()) + slots_source(
            cs.skip(m),
        )) =~= (slot_source(cs[0]) + slots_source(cs.take(m).drop_first())) + slots_source(
            cs.skip(m),
        ));
    }
}

/// The source of one slot sits between the sources of its left and right
/// siblings.
pub proof fn lemma_slots_source_elem(cs: Seq<SlotView>, i: int)
    requires
        0 <= i < cs.len(),
    ensures
        slots_source(cs) == slots_source(cs.take(i)) + slot_source(cs[i]) + slots_source(
            cs.skip(i + 1),
        ),
{
    lemma_slots_source_split(cs, i);
    assert(cs.skip(i)[0] == cs[i]);
    assert(cs.skip(i).drop_first() =~= cs.skip(i + 1));
    assert(slots_source(cs.take(i)) + (slot_source(cs[i]) + slots_source(cs.skip(i + 1))) =~= (
    slots_source(cs.take(i)) + slot_source(cs[i])) + slots_source(cs.skip(i + 1)));
}

/// The source of the slot at a path is a contiguous span of the source of
/// the whole tree, beginning at its offset.
pub proof fn lemma_subtree_embedding(s: SlotView, path: Seq<usize>)
    requires
        slot_at(s, path) is Some,
    ensures
        0 <= offset_of(s, path),
        offset_of(s, path) + slot_source(slot_at(s, path)->0).len() <= slot_source(s).len(),
        slot_source(s).subrange(
            offset_of(s, path),
            offset_of(s, path) + slot_source(slot_at(s, path)->0).len() as int,
        ) == slot_source(slot_at(s, path)->0),
    decreases path.len(),
{
    if path.len() == 0 {
        assert(slot_source(s).subrange(0, slot_source(s).len() as int) =~= slot_source(s));
    } else {
        match s {
            SlotView::Node(n) => {
                let i0 = path[0] as int;
                assert(i0 < n.children.len());
                let child = n.children[i0];
                let rest = path.drop_first();
                lemma_subtree_embedding(child, rest);
                lemma_slots_source_elem(n.children, i0);
                let pref = slots_source(n.children.take(i0));
                let co = offset_of(child, rest);
                let sub = slot_source(slot_at(child, rest)->0);
                assert(offset_of(s, path) == pref.len() + co);
                assert(slot_source(s).subrange(
                    pref.len() + co,
                    pref.len() + co + sub.len(),
                ) =~= slot_source(child).subrange(co, co + sub.len()));
            },
            _ => {},
        }
    }
}

/// The length, in characters, of a trivia prefix never exceeds that of the
/// whole list.
pub proof fn lemma_trivia_take_le(ps: Seq<TriviaView>, m: int)
    requires
        0 <= m <= ps.len(),
    ensures
        trivia_text(ps.take(m)).len() <= trivia_text(ps).len(),
    decreases ps.len() - m,
{
    if m == ps.len() {
        assert(ps.take(m) =~= ps);
    } else {
        assert(ps.take(m + 1) =~= ps.take(m).push(ps[m]));
        lemma_trivia_text_push(ps.take(m), ps[m]);
        lemma_trivia_take_le(ps, m + 1);
    }
}

/// The length, in characters, of a trivia list's text.
pub fn trivia_len(ps: &Vec<crate::trivia::TriviaPiece>, bound: Ghost<int>) -> (r: usize)
    requires
        trivia_text(pieces_view(ps@)).len() <= bound@ <= usize::MAX,
    ensures
        r == trivia_text(pieces_view(ps@)).len(),
{
    let ghost views = pieces_view(ps@);
    let mut acc: usize = 0;
    let mut i: usize = 0;
    while i < ps.len()
        invariant
            i <= ps.len(),
            views == pieces_view(ps@),
            trivia_text(views).len() <= usize::MAX,
            acc == trivia_text(views.take(i as int)).len(),
        decreases ps.len() - i,
    {
        proof {
            assert(views.take(i + 1) =~= views.take(i as int).push(views[i as int]));
            lemma_trivia_text_push(views.take(i as int), views[i as int]);
            lemma_trivia_take_le(views, i + 1);
            assert(views[i as int].text == ps@[i as int]@.text);
        }
        let l = ps[i].text.as_str().unicode_len();
        acc = acc + l;
        i = i + 1;
    }
    proof {
        assert(views.take(views.len() as int) =~= views);
    }
    acc
}

/// The length, in characters, of the source a token reproduces.
pub fn token_len(t: &Token, bound: Ghost<int>) -> (r: usize)
    requires
        token_source(t@).len() <= bound@ <= usize::MAX,
    ensures
        r == token_source(t@).len(),
{
    let lead = trivia_len(&t.leading, bound);
    let text = t.text.as_str().unicode_len();
    let trail = trivia_len(&t.trailing, bound);
    lead + text + trail
}

/// The length, in characters, of the source a slot reproduces.
pub fn slot_len(s: &Slot, bound: Ghost<int>) -> (r: usize)
    requires
        slot_source(s@).len() <= bound@ <= usize::MAX,
    ensures
        r == slot_source(s@).len(),
    decreases *s,
{
    match s {
        Slot::Node(n) => {
            proof {
                assert(decreases_to!(*s => *n));
            }
            node_len(n, bound)
        },
        Slot::Token(t) => token_len(t, bound),
        Slot::Empty => 0,
    }
}

/// The length, in characters, of the source a node reproduces.
pub fn node_len(n: &Node, bound: Ghost<int>) -> (r: usize)
    requires
        node_source(n@).len() <= bound@ <= usize::MAX,
    ensures
        r == node_source(n@).len(),
    decreases *n, 0nat,
{
    proof {
        lemma_slots_view(n.children@);
    }
    let ghost cs = n@.children;
    let mut acc: usize = 0;
    let mut i: usize = 0;
    while i < n.children.len()
        invariant
            i <= n.children.len(),
            cs == n@.children,
            cs.len() == n.children@.len(),
            forall|j: int| 0 <= j < cs.len() ==> cs[j] == crate::syntax::slot_view(n.children@[j]),
            slots_source(cs).len() <= bound@ <= usize::MAX,
            acc == slots_source(cs.take(i as int)).len(),
        decreases n.children.len() - i,
    {
        proof {
            assert(decreases_to!(*n => n.children@[i as int]));
            lemma_slots_source_elem(cs, i as int);
            crate::syntax::lemma_slots_source_push(cs.take(i as int), cs[i as int]);
            assert(cs.take(i + 1) =~= cs.take(i as int).push(cs[i as int]));
        }
        let l = slot_len(&n.children[i], bound);
        acc = acc + l;
        i = i + 1;
    }
    proof {
        assert(cs.take(cs.len() as int) =~= cs);
    }
    acc
}

/// The character offset, within the source of `n`, of the slot at
/// `path[from..]`.
fn offset_in(n: &Node, path: &Vec<usize>, from: usize, bound: Ghost<int>) -> (r: usize)
    requires
        from <= path.len(),
        slot_at(SlotView::Node(n@), path@.skip(from as int)) is Some,
        node_source(n@).len() <= bound@ <= usize::MAX,
    ensures
        r == offset_of(SlotView::Node(n@), path@.skip(from as int)),
        r + slot_source(slot_at(SlotView::Node(n@), path@.skip(from as int))->0).len()
            <= node_source(n@).len(),
    decreases path.len() - from,
{
    proof {
        lemma_subtree_embedding(SlotView::Node(n@), path@.skip(from as int));
    }
    if from == path.len() {
        proof {
            assert(path@.skip(from as int) =~= Seq::<usize>::empty());
        }
        return 0;
    }
    proof {
        lemma_slots_view(n.children@);
        assert(path@.skip(from as int)[0] == path@[from as int]);
        assert(path@.skip(from as int).drop_first() =~= path@.skip(from + 1));
    }
    let ghost cs = n@.children;
    let idx = path[from];
    assert(idx < n.children.len());
    let mut acc: usize = 0;
    let mut j: usize = 0;
    while j < idx
        invariant
            j <= idx,
            idx < n.children.len(),
            cs == n@.children,
            cs.len() == n.children@.len(),
            forall|k: int| 0 <= k < cs.len() ==> cs[k] == crate::syntax::slot_view(n.children@[k]),
            slots_source(cs).len() <= bound@ <= usize::MAX,
            acc == slots_source(cs.take(j as int)).len(),
        decreases idx - j,
    {
        proof {
            lemma_slots_source_elem(cs, j as int);
            crate::syntax::lemma_slots_source_push(cs.take(j as int), cs[j as int]);
            assert(cs.take(j + 1) =~= cs.take(j as int).push(cs[j as int]));
        }
        let l = slot_len(&n.children[j], bound);
        acc = acc + l;
        j = j + 1;
    }
    proof {
        lemma_slots_source_elem(cs, idx as int);
    }
    if from + 1 == path.len() {
        proof {
            assert(path@.skip(from + 1) =~= Seq::<usize>::empty());
        }
        acc
    } else {
        match &n.children[idx] {
            Slot::Node(m) => {
                proof {
                    lemma_subtree_embedding(
                        SlotView::Node(m@),
                        path@.skip(from + 1),
                    );
                }
                let o = offset_in(m, path, from + 1, bound);
                acc + o
            },
            _ => {
                proof {
                    assert(false);
                }
                0
            },
        }
    }
}

/// The source range, in character offsets, of the slot at `path` in
/// `root`: where its exact source text begins and ends within the source of
/// the whole tree.
pub fn text_range(root: &Node, path: &Vec<usize>) -> (r: TextRange)
    requires
        slot_at(SlotView::Node(root@), path@) is Some,
        node_source(root@).len() <= usize::MAX,
    ensures
        r.start == offset_of(SlotView::Node(root@), path@),
        r.end == r.start + slot_source(slot_at(SlotView::Node(root@), path@)->0).len(),
{
    let ghost bound: int = node_source(root@).len() as int;
    proof {
        assert(path@.skip(0) =~= path@);
        lemma_subtree_embedding(SlotView::Node(root@), path@);
    }
    let start = offset_in(root, path, 0, Ghost(bound));
    let len: usize;
    if path.len() == 0 {
        len = node_len(root, Ghost(bound));
    } else {
        proof {
            lemma_slots_view(root.children@);
            assert(path@.drop_first() =~= path@.skip(1));
        }
        let idx = path[0];
        assert(idx < root.children.len());
        match crate::mutation::slot_at_exec(&root.children[idx], path, 1) {
            Some(s) => {
                len = slot_len(s, Ghost(bound));
            },
            None => {
                proof {
                    assert(false);
                }
                len = 0;
            },
        }
    }
    TextRange { start, end: start + len }
}

} // verus!
