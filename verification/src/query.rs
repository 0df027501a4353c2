//! The query layer: a deterministic, restartable pre-order walk that yields
//! the path of every node of a requested kind, in document order.
//! Traversal never changes the tree it walks, and re-querying the same tree
//! yields the same sequence.

use vstd::prelude::*;

use crate::syntax::Node;
use crate::syntax::NodeKind;
use crate::syntax::Slot;
use crate::syntax::SlotView;
use crate::syntax::lemma_slots_view;

verus! {

/// The paths (each prefixed by `at`) of every node of kind `kind` in the
/// subtree `s`, in pre-order: a matching node comes before its matching
/// descendants, and children are visited left to right.
pub open spec fn slot_matches(s: SlotView, at: Seq<usize>, kind: NodeKind) -> Seq<Seq<usize>>
    decreases s, 0nat,
{
    match s {
        SlotView::Node(n) => (if n.kind == kind {
            seq![at]
        } else {
            Seq::empty()
        }) + children_matches(n.children, at, 0, kind),
        _ => Seq::empty(),
    }
}

/// The matches contributed by the children `cs[from..]`.
pub open spec fn children_matches(
    cs: Seq<SlotView>,
    at: Seq<usize>,
    from: int,
    kind: NodeKind,
) -> Seq<Seq<usize>>
    decreases cs, cs.len() - from,
{
    if 0 <= from < cs.len() {
        slot_matches(cs[from], at.push(from as usize), kind) + children_matches(
            cs,
            at,
            from + 1,
            kind,
        )
    } else {
        Seq::empty()
    }
}

/// The matches contributed by the children `cs[..upto]`.
pub open spec fn matches_upto(
    cs: Seq<SlotView>,
    at: Seq<usize>,
    upto: int,
    kind: NodeKind,
) -> Seq<Seq<usize>>
    decreases upto,
{
    if 0 < upto <= cs.len() {
        matches_upto(cs, at, upto - 1, kind) + slot_matches(cs[upto - 1], at.push(
            (upto - 1) as usize,
        ), kind)
    } else {
        Seq::empty()
    }
}

/// Walking the first `m` children and then the rest gives the whole walk.
pub proof fn lemma_matches_split(cs: Seq<SlotView>, at: Seq<usize>, m: int, kind: NodeKind)
    requires
        0 <= m <= cs.len(),
    ensures
        matches_upto(cs, at, m, kind) + children_matches(cs, at, m, kind) == children_matches(
            cs,
            at,
            0,
            kind,
        ),
    decreases m,
{
    if m == 0 {
        assert(matches_upto(cs, at, 0, kind) + children_matches(cs, at, 0, kind) =~= children_matches(
            cs,
            at,
            0,
            kind,
        ));
    } else {
        lemma_matches_split(cs, at, m - 1, kind);
        assert((matches_upto(cs, at, m - 1, kind) + slot_matches(cs[m - 1], at.push(
            (m - 1) as usize,
        ), kind)) + children_matches(cs, at, m, kind) =~= matches_upto(cs, at, m - 1, kind) + (
        slot_matches(cs[m - 1], at.push((m - 1) as usize), kind) + children_matches(
            cs,
            at,
            m,
            kind,
        )));
    }
}

/// The ghost images of a list of paths.
pub open spec fn paths_view(ps: Seq<Vec<usize>>) -> Seq<Seq<usize>> {
    ps.map_values(|p: Vec<usize>| p@)
}

/// Copies a path.
pub fn copy_path(p: &Vec<usize>) -> (r: Vec<usize>)
    ensures
        r@ == p@,
{
    let mut r: Vec<usize> = Vec::new();
    let mut i: usize = 0;
    while i < p.len()
        invariant
            i <= p.len(),
            r@ =~= p@.take(i as int),
        decreases p.len() - i,
    {
        r.push(p[i]);
        i = i + 1;
    }
    proof {
        assert(p@.take(p@.len() as int) =~= p@);
    }
    r
}

/// Appends to `out` the path of every node of kind `kind` in the subtree
/// `s`, in pre-order.  `at` is the path of `s` itself and is restored
/// before returning.
fn collect_matches(s: &Slot, at: &mut Vec<usize>, kind: NodeKind, out: &mut Vec<Vec<usize>>)
    ensures
        final(at)@ == old(at)@,
        paths_view(final(out)@) == paths_view(old(out)@) + slot_matches(s@, old(at)@, kind),
    decreases *s, 1nat,
{
    match s {
        Slot::Node(n) => {
            proof {
                assert(decreases_to!(*s => *n));
            }
            collect_node(n, at, kind, out);
        },
        _ => {
            proof {
                assert(paths_view(out@) + Seq::<Seq<usize>>::empty() =~= paths_view(out@));
            }
        },
    }
}

/// Appends to `out` the path of every node of kind `kind` in the subtree
/// rooted at `n`, in pre-order.
fn collect_node(n: &Node, at: &mut Vec<usize>, kind: NodeKind, out: &mut Vec<Vec<usize>>)
    ensures
        final(at)@ == old(at)@,
        paths_view(final(out)@) == paths_view(old(out)@) + slot_matches(
            SlotView::Node(n@),
            old(at)@,
            kind,
        ),
    decreases *n, 0nat,
{
    proof {
        lemma_slots_view(n.children@);
    }
    let ghost at0 = at@;
    let ghost out0 = paths_view(out@);
    let ghost cs = n@.children;
    if n.kind == kind {
        let p = copy_path(at);
        out.push(p);
        proof {
            assert(paths_view(out@) =~= out0 + seq![at0]);
        }
    }
    let ghost head: Seq<Seq<usize>> = if n.kind == kind {
        seq![at0]
    } else {
        Seq::empty()
    };
    proof {
        assert(paths_view(out@) =~= out0 + head);
        assert(matches_upto(cs, at0, 0, kind) =~= Seq::<Seq<usize>>::empty());
        assert((out0 + head) + Seq::<Seq<usize>>::empty() =~= out0 + head);
    }
    let mut i: usize = 0;
    while i < n.children.len()
        invariant
            i <= n.children.len(),
            cs == n@.children,
            cs.len() == n.children@.len(),
            forall|j: int| 0 <= j < cs.len() ==> cs[j] == crate::syntax::slot_view(n.children@[j]),
            at@ == at0,
            paths_view(out@) == (out0 + head) + matches_upto(cs, at0, i as int, kind),
        decreases n.children.len() - i,
    {
        proof {
            assert(decreases_to!(*n => n.children@[i as int]));
        }
        at.push(i);
        collect_matches(&n.children[i], at, kind, out);
        let _ = at.pop();
        proof {
            assert(at@ =~= at0);
            assert(((out0 + head) + matches_upto(cs, at0, i as int, kind)) + slot_matches(
                cs[i as int],
                at0.push(i),
                kind,
            ) =~= (out0 + head) + (matches_upto(cs, at0, i as int, kind) + slot_matches(
                cs[i as int],
                at0.push(i),
                kind,
            )));
            assert(matches_upto(cs, at0, i + 1, kind) == matches_upto(cs, at0, i as int, kind)
                + slot_matches(cs[i as int], at0.push(i), kind));
        }
        i = i + 1;
    }
    proof {
        lemma_matches_split(cs, at0, cs.len() as int, kind);
        assert(children_matches(cs, at0, cs.len() as int, kind) =~= Seq::<Seq<usize>>::empty());
        assert(matches_upto(cs, at0, cs.len() as int, kind) + Seq::<Seq<usize>>::empty() =~= matches_upto(
            cs,
            at0,
            cs.len() as int,
            kind,
        ));
        assert((out0 + head) + children_matches(cs, at0, 0, kind) =~= out0 + (head
            + children_matches(cs, at0, 0, kind)));
    }
}

/// The path of every node of kind `kind` in `root`, in document
/// (pre-)order.  The walk is deterministic: the same tree and kind always
/// yield the same paths, and the tree is never changed.
pub fn for_each_node_of_kind(root: &Node, kind: NodeKind) -> (r: Vec<Vec<usize>>)
    ensures
        paths_view(r@) == slot_matches(SlotView::Node(root@), Seq::empty(), kind),
{
    let mut at: Vec<usize> = Vec::new();
    let mut out: Vec<Vec<usize>> = Vec::new();
    collect_node(root, &mut at, kind, &mut out);
    proof {
        assert(paths_view(Seq::<Vec<usize>>::empty()) =~= Seq::<Seq<usize>>::empty());
        assert(Seq::<Seq<usize>>::empty() + slot_matches(SlotView::Node(root@), Seq::empty(), kind)
            =~= slot_matches(SlotView::Node(root@), Seq::empty(), kind));
    }
    out
}

} // verus!
