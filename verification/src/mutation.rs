//! The mutation batch: a transactional edit log recorded against an
//! immutable base tree.  Committing a batch produces a fresh tree in which
//! every recorded slot is replaced and every subtree off the edit paths is
//! kept as it was.  A batch whose edits are not all reachable, compatible
//! and pairwise disjoint fails as a whole: no partial tree is ever produced.

use vstd::prelude::*;

use crate::syntax::Node;
use crate::syntax::NodeKind;
use crate::syntax::Slot;
use crate::syntax::SlotView;
use crate::syntax::copy_node;
use crate::syntax::copy_slot;
use crate::syntax::is_prefix_of;
use crate::syntax::lemma_slots_view;
use crate::syntax::replace_at;
use crate::syntax::slot_at;
use crate::syntax::slot_view;
use crate::syntax::slots_view;

verus! {

/// Why a commit failed.  The base tree is never modified: on any error the
/// caller keeps the last known-good tree.
#[derive(Clone, Copy, PartialEq, Eq, Structural, Debug)]
pub enum BatchError {
    /// An edit's target is not reachable in the base tree.
    NotReachable,
    /// A replacement's kind does not fit the replaced slot.
    IncompatibleKind,
    /// Two edits target the same node or an ancestor/descendant pair.
    Overlap,
}

/// One recorded replacement: the path that identifies the replaced slot in
/// the base tree, and the slot that takes its place.
#[derive(Debug)]
pub struct Edit {
    pub path: Vec<usize>,
    pub new: Slot,
}

/// Ghost image of an edit.
#[verifier::ext_equal]
pub ghost struct EditView {
    pub path: Seq<usize>,
    pub new: SlotView,
}

impl View for Edit {
    type V = EditView;

    open spec fn view(&self) -> EditView {
        EditView { path: self.path@, new: slot_view(self.new) }
    }
}

impl Clone for Edit {
    fn clone(&self) -> (r: Self)
        ensures
            r@ == self@,
    {
        let mut path: Vec<usize> = Vec::new();
        let mut i: usize = 0;
        while i < self.path.len()
            invariant
                i <= self.path.len(),
                path@ =~= self.path@.take(i as int),
            decreases self.path.len() - i,
        {
            path.push(self.path[i]);
            i = i + 1;
        }
        proof {
            assert(self.path@.take(self.path@.len() as int) =~= self.path@);
        }
        Edit { path, new: copy_slot(&self.new) }
    }
}

/// The ghost images of a list of edits.
pub open spec fn edits_view(es: Seq<Edit>) -> Seq<EditView> {
    es.map_values(|e: Edit| e@)
}

/// Whether node kind `new` may stand where node kind `old` stands: the same
/// kind always fits, any JSX tag may replace any JSX tag, and any
/// expression may replace any expression.
pub open spec fn kinds_compatible(old: NodeKind, new: NodeKind) -> bool {
    old == new || (is_jsx_tag(old) && is_jsx_tag(new)) || (is_expression(old) && is_expression(
        new,
    ))
}

/// Whether a node kind is a JSX tag (a plain or a self-closing element).
pub open spec fn is_jsx_tag(k: NodeKind) -> bool {
    k == NodeKind::JsxElement || k == NodeKind::JsxSelfClosingElement
}

/// Whether a node kind is an expression.
pub open spec fn is_expression(k: NodeKind) -> bool {
    ||| k == NodeKind::BinaryExpression
    ||| k == NodeKind::UnaryExpression
    ||| k == NodeKind::StringLiteralExpression
    ||| k == NodeKind::NumberLiteralExpression
    ||| k == NodeKind::IdentifierExpression
}

/// Whether slot `new` may stand in the place of slot `old`: a token for a
/// token, an empty slot for an empty slot, and a node for a node of a
/// compatible kind.
pub open spec fn slot_compatible(old: SlotView, new: SlotView) -> bool {
    match (old, new) {
        (SlotView::Node(a), SlotView::Node(b)) => kinds_compatible(a.kind, b.kind),
        (SlotView::Token(_), SlotView::Token(_)) => true,
        (SlotView::Empty, SlotView::Empty) => true,
        _ => false,
    }
}

/// Whether the edit's target is reachable in base tree `s`.
pub open spec fn edit_reachable(s: SlotView, e: EditView) -> bool {
    slot_at(s, e.path) is Some
}

/// Whether the edit's replacement fits the slot it replaces.
pub open spec fn edit_compatible(s: SlotView, e: EditView) -> bool {
    match slot_at(s, e.path) {
        Some(old) => slot_compatible(old, e.new),
        None => false,
    }
}

/// Whether no two edits target the same slot or an ancestor/descendant
/// pair.
pub open spec fn edits_disjoint(es: Seq<EditView>) -> bool {
    forall|i: int, j: int|
        0 <= i < es.len() && 0 <= j < es.len() && i != j ==> !is_prefix_of(
            #[trigger] es[i].path,
            #[trigger] es[j].path,
        )
}

/// Every edit applied in order, each one rebuilding only the path from its
/// target up to the root.
pub open spec fn apply_edits(s: SlotView, es: Seq<EditView>) -> SlotView
    decreases es.len(),
{
    if es.len() == 0 {
        s
    } else {
        apply_edits(replace_at(s, es[0].path, es[0].new), es.drop_first())
    }
}

/// Applying one more edit applies it to the result of the previous ones.
pub proof fn lemma_apply_edits_push(s: SlotView, es: Seq<EditView>, e: EditView)
    ensures
        apply_edits(s, es.push(e)) == replace_at(apply_edits(s, es), e.path, e.new),
    decreases es.len(),
{
    if es.len() == 0 {
        assert(es.push(e).drop_first() =~= Seq::<EditView>::empty());
        assert(es.push(e)[0] == e);
        assert(apply_edits(replace_at(s, e.path, e.new), Seq::<EditView>::empty()) == replace_at(
            s,
            e.path,
            e.new,
        ));
    } else {
        assert(es.push(e).drop_first() =~= es.drop_first().push(e));
        assert(es.push(e)[0] == es[0]);
        lemma_apply_edits_push(replace_at(s, es[0].path, es[0].new), es.drop_first(), e);
    }
}

/// A batch is valid when every edit is reachable and compatible and the
/// edits are pairwise disjoint.
pub open spec fn batch_valid(s: SlotView, es: Seq<EditView>) -> bool {
    &&& forall|i: int| 0 <= i < es.len() ==> edit_reachable(s, #[trigger] es[i])
    &&& forall|i: int| 0 <= i < es.len() ==> edit_compatible(s, #[trigger] es[i])
    &&& edits_disjoint(es)
}

/// Decides `kinds_compatible`.
pub fn kinds_compatible_exec(old: NodeKind, new: NodeKind) -> (r: bool)
    ensures
        r == kinds_compatible(old, new),
{
    let old_tag = match old {
        NodeKind::JsxElement | NodeKind::JsxSelfClosingElement => true,
        _ => false,
    };
    let new_tag = match new {
        NodeKind::JsxElement | NodeKind::JsxSelfClosingElement => true,
        _ => false,
    };
    let old_expr = match old {
        NodeKind::BinaryExpression
        | NodeKind::UnaryExpression
        | NodeKind::StringLiteralExpression
        | NodeKind::NumberLiteralExpression
        | NodeKind::IdentifierExpression => true,
        _ => false,
    };
    let new_expr = match new {
        NodeKind::BinaryExpression
        | NodeKind::UnaryExpression
        | NodeKind::StringLiteralExpression
        | NodeKind::NumberLiteralExpression
        | NodeKind::IdentifierExpression => true,
        _ => false,
    };
    old == new || (old_tag && new_tag) || (old_expr && new_expr)
}

/// Decides `slot_compatible`.
pub fn slot_compatible_exec(old: &Slot, new: &Slot) -> (r: bool)
    ensures
        r == slot_compatible(old@, new@),
{
    match (old, new) {
        (Slot::Node(a), Slot::Node(b)) => kinds_compatible_exec(a.kind, b.kind),
        (Slot::Token(_), Slot::Token(_)) => true,
        (Slot::Empty, Slot::Empty) => true,
        _ => false,
    }
}

/// The slot reached from `s` by `path[from..]`, if any.
pub fn slot_at_exec<'a>(s: &'a Slot, path: &Vec<usize>, from: usize) -> (r: Option<&'a Slot>)
    requires
        from <= path.len(),
    ensures
        match r {
            Some(t) => slot_at(s@, path@.skip(from as int)) == Some(t@),
            None => slot_at(s@, path@.skip(from as int)) is None,
        },
    decreases path.len() - from,
{
    if from == path.len() {
        proof {
            assert(path@.skip(from as int) =~= Seq::<usize>::empty());
        }
        Some(s)
    } else {
        proof {
            assert(path@.skip(from as int).len() > 0);
            assert(path@.skip(from as int)[0] == path@[from as int]);
            assert(path@.skip(from as int).drop_first() =~= path@.skip(from + 1));
        }
        match s {
            Slot::Node(n) => {
                proof {
                    lemma_slots_view(n.children@);
                }
                let idx = path[from];
                if idx < n.children.len() {
                    slot_at_exec(&n.children[idx], path, from + 1)
                } else {
                    None
                }
            },
            _ => None,
        }
    }
}

/// Rebuilds `s` with the slot at `path[from..]` replaced by `new`.
pub fn apply_one(s: Slot, path: &Vec<usize>, from: usize, new: Slot) -> (r: Slot)
    requires
        from <= path.len(),
    ensures
        r@ == replace_at(s@, path@.skip(from as int), new@),
    decreases path.len() - from,
{
    if from == path.len() {
        proof {
            assert(path@.skip(from as int) =~= Seq::<usize>::empty());
        }
        new
    } else {
        proof {
            assert(path@.skip(from as int).len() > 0);
            assert(path@.skip(from as int)[0] == path@[from as int]);
            assert(path@.skip(from as int).drop_first() =~= path@.skip(from + 1));
        }
        match s {
            Slot::Node(n) => {
                let ghost n0 = n;
                proof {
                    lemma_slots_view(n.children@);
                }
                let idx = path[from];
                let Node { kind, mut children } = n;
                if idx < children.len() {
                    let ghost before = children@;
                    let child = children.remove(idx);
                    let child2 = apply_one(child, path, from + 1, new);
                    children.insert(idx, child2);
                    proof {
                        assert(children@ =~= before.update(idx as int, child2));
                        lemma_slots_view(children@);
                        lemma_slots_view(before);
                        assert(slots_view(children@) =~= slots_view(before).update(
                            idx as int,
                            slot_view(child2),
                        ));
                    }
                    Slot::Node(Node { kind, children })
                } else {
                    let r = Slot::Node(Node { kind, children });
                    proof {
                        assert(r@ == s@);
                    }
                    r
                }
            },
            other => other,
        }
    }
}

/// Whether either path is a prefix of the other (equality included): the
/// overlap that a batch refuses.
pub fn paths_overlap(a: &Vec<usize>, b: &Vec<usize>) -> (r: bool)
    ensures
        r == (is_prefix_of(a@, b@) || is_prefix_of(b@, a@)),
{
    let n = if a.len() < b.len() {
        a.len()
    } else {
        b.len()
    };
    let mut i: usize = 0;
    while i < n
        invariant
            i <= n,
            n == if a@.len() < b@.len() {
                a@.len()
            } else {
                b@.len()
            },
            forall|j: int| 0 <= j < i ==> a@[j] == b@[j],
        decreases n - i,
    {
        if a[i] != b[i] {
            proof {
                assert(!is_prefix_of(a@, b@)) by {
                    if is_prefix_of(a@, b@) {
                        assert(a@[i as int] == b@.take(a@.len() as int)[i as int]);
                    }
                }
                assert(!is_prefix_of(b@, a@)) by {
                    if is_prefix_of(b@, a@) {
                        assert(b@[i as int] == a@.take(b@.len() as int)[i as int]);
                    }
                }
            }
            return false;
        }
        i = i + 1;
    }
    proof {
        if a@.len() <= b@.len() {
            assert(a@ =~= b@.take(a@.len() as int));
        } else {
            assert(b@ =~= a@.take(b@.len() as int));
        }
    }
    true
}

/// Decides whether the edit's target is reachable in `base`.
pub fn edit_reachable_exec(base: &Node, e: &Edit) -> (r: bool)
    ensures
        r == edit_reachable(SlotView::Node(base@), e@),
{
    if e.path.len() == 0 {
        return true;
    }
    proof {
        lemma_slots_view(base.children@);
        assert(e.path@[0] == e.path@.index(0));
        assert(e.path@.drop_first() =~= e.path@.skip(1));
    }
    let idx = e.path[0];
    if idx >= base.children.len() {
        return false;
    }
    slot_at_exec(&base.children[idx], &e.path, 1).is_some()
}

/// Decides whether the edit's replacement fits the slot it replaces.
pub fn edit_compatible_exec(base: &Node, e: &Edit) -> (r: bool)
    ensures
        r == edit_compatible(SlotView::Node(base@), e@),
{
    if e.path.len() == 0 {
        return match &e.new {
            Slot::Node(m) => kinds_compatible_exec(base.kind, m.kind),
            _ => false,
        };
    }
    proof {
        lemma_slots_view(base.children@);
        assert(e.path@.drop_first() =~= e.path@.skip(1));
    }
    let idx = e.path[0];
    if idx >= base.children.len() {
        return false;
    }
    match slot_at_exec(&base.children[idx], &e.path, 1) {
        Some(old) => slot_compatible_exec(old, &e.new),
        None => false,
    }
}

/// Applying edits whose replacements at the root are nodes keeps the tree a
/// node.
pub proof fn lemma_apply_edits_node(s: SlotView, es: Seq<EditView>)
    requires
        s is Node,
        forall|i: int| 0 <= i < es.len() ==> (#[trigger] es[i]).path.len() > 0 || es[i].new is Node,
    ensures
        apply_edits(s, es) is Node,
    decreases es.len(),
{
    if es.len() > 0 {
        let s2 = replace_at(s, es[0].path, es[0].new);
        assert(s2 is Node);
        assert(forall|i: int|
            0 <= i < es.drop_first().len() ==> (#[trigger] es.drop_first()[i]) == es[i + 1]);
        lemma_apply_edits_node(s2, es.drop_first());
    }
}

/// A transactional edit log against an immutable base tree.  Recorded edits
/// have no effect until `commit`, which either produces a whole new tree or
/// fails as a whole.  The base tree is only ever read.
pub struct MutationBatch<'a> {
    pub base: &'a Node,
    pub edits: Vec<Edit>,
}

impl Node {
    /// Starts an empty mutation batch recorded against this tree.
    pub fn begin<'a>(&'a self) -> (r: MutationBatch<'a>)
        ensures
            r.base == self,
            r.edits@ =~= Seq::<Edit>::empty(),
    {
        MutationBatch { base: self, edits: Vec::new() }
    }
}

impl<'a> MutationBatch<'a> {
    /// Records the replacement of the slot identified by `path` with `new`.
    /// The edit is only validated at commit time.
    pub fn replace_node(&mut self, path: Vec<usize>, new: Slot)
        ensures
            final(self).base == old(self).base,
            edits_view(final(self).edits@) == edits_view(old(self).edits@).push(
                (EditView { path: path@, new: slot_view(new) }),
            ),
    {
        self.edits.push(Edit { path, new });
        proof {
            assert(edits_view(self.edits@) =~= edits_view(old(self).edits@).push(
                (EditView { path: path@, new: slot_view(new) }),
            ));
        }
    }

    /// Commits the batch: checks that every edit is reachable in the base
    /// tree, that every replacement fits its slot, and that no two edits
    /// target the same node or an ancestor/descendant pair; then builds the
    /// new tree, rebuilding only the paths from each edit to the root.  On
    /// any failure no tree is produced and the base tree is untouched.
    pub fn commit(self) -> (r: Result<Node, BatchError>)
        ensures
            (r is Ok) == batch_valid(SlotView::Node(self.base@), edits_view(self.edits@)),
            (match r {
                Ok(t) => SlotView::Node(t@) == apply_edits(
                    SlotView::Node(self.base@),
                    edits_view(self.edits@),
                ),
                Err(_) => true,
            }),
            (r == Err::<Node, BatchError>(BatchError::NotReachable)) == !(forall|i: int|
                0 <= i < self.edits@.len() ==> edit_reachable(
                    SlotView::Node(self.base@),
                    #[trigger] edits_view(self.edits@)[i],
                )),
            (r == Err::<Node, BatchError>(BatchError::IncompatibleKind)) == ((forall|i: int|
                0 <= i < self.edits@.len() ==> edit_reachable(
                    SlotView::Node(self.base@),
                    #[trigger] edits_view(self.edits@)[i],
                )) && !(forall|i: int|
                0 <= i < self.edits@.len() ==> edit_compatible(
                    SlotView::Node(self.base@),
                    #[trigger] edits_view(self.edits@)[i],
                ))),
            (r == Err::<Node, BatchError>(BatchError::Overlap)) == ((forall|i: int|
                0 <= i < self.edits@.len() ==> edit_reachable(
                    SlotView::Node(self.base@),
                    #[trigger] edits_view(self.edits@)[i],
                )) && (forall|i: int|
                0 <= i < self.edits@.len() ==> edit_compatible(
                    SlotView::Node(self.base@),
                    #[trigger] edits_view(self.edits@)[i],
                )) && !edits_disjoint(edits_view(self.edits@))),
    {
        let ghost s = SlotView::Node(self.base@);
        let ghost evs = edits_view(self.edits@);
                let mut k: usize = 0;
        while k < self.edits.len()
            invariant
                k <= self.edits.len(),
                s == SlotView::Node(self.base@),
                evs == edits_view(self.edits@),
                forall|i: int| 0 <= i < k ==> edit_reachable(s, #[trigger] evs[i]),
            decreases self.edits.len() - k,
        {
            if !edit_reachable_exec(self.base, &self.edits[k]) {
                proof {
                    assert(evs[k as int] == self.edits@[k as int]@);
                    assert(!edit_reachable(s, evs[k as int]));
                }
                return Err(BatchError::NotReachable);
            }
            proof {
                assert(evs[k as int] == self.edits@[k as int]@);
            }
            k = k + 1;
        }
        let mut k: usize = 0;
        while k < self.edits.len()
            invariant
                k <= self.edits.len(),
                s == SlotView::Node(self.base@),
                evs == edits_view(self.edits@),
                forall|i: int| 0 <= i < k ==> edit_compatible(s, #[trigger] evs[i]),
                forall|i: int| 0 <= i < evs.len() ==> edit_reachable(s, #[trigger] evs[i]),
            decreases self.edits.len() - k,
        {
            if !edit_compatible_exec(self.base, &self.edits[k]) {
                proof {
                    assert(evs[k as int] == self.edits@[k as int]@);
                    assert(!edit_compatible(s, evs[k as int]));
                }
                return Err(BatchError::IncompatibleKind);
            }
            proof {
                assert(evs[k as int] == self.edits@[k as int]@);
            }
            k = k + 1;
        }
        let mut i: usize = 0;
        while i < self.edits.len()
            invariant
                i <= self.edits.len(),
                s == SlotView::Node(self.base@),
                evs == edits_view(self.edits@),
                forall|a: int, b: int|
                    0 <= a < i && a < b < evs.len() ==> !is_prefix_of(
                        #[trigger] evs[a].path,
                        #[trigger] evs[b].path,
                    ) && !is_prefix_of(evs[b].path, evs[a].path),
                forall|x: int| 0 <= x < evs.len() ==> edit_reachable(s, #[trigger] evs[x]),
                forall|x: int| 0 <= x < evs.len() ==> edit_compatible(s, #[trigger] evs[x]),
            decreases self.edits.len() - i,
        {
            let mut j: usize = i + 1;
            while j < self.edits.len()
                invariant
                    i < j <= self.edits.len(),
                    s == SlotView::Node(self.base@),
                    evs == edits_view(self.edits@),
                    forall|x: int| 0 <= x < evs.len() ==> edit_reachable(s, #[trigger] evs[x]),
                    forall|x: int| 0 <= x < evs.len() ==> edit_compatible(s, #[trigger] evs[x]),
                    forall|b: int|
                        i < b < j ==> !is_prefix_of(
                            (#[trigger] evs[b]).path,
                            evs[i as int].path,
                        ) && !is_prefix_of(evs[i as int].path, evs[b].path),
                decreases self.edits.len() - j,
            {
                if paths_overlap(&self.edits[i].path, &self.edits[j].path) {
                    proof {
                        assert(evs[i as int] == self.edits@[i as int]@);
                        assert(evs[j as int] == self.edits@[j as int]@);
                        assert(is_prefix_of(evs[i as int].path, evs[j as int].path)
                            || is_prefix_of(evs[j as int].path, evs[i as int].path));
                        assert(!edits_disjoint(evs));
                    }
                    return Err(BatchError::Overlap);
                }
                proof {
                    assert(evs[i as int] == self.edits@[i as int]@);
                    assert(evs[j as int] == self.edits@[j as int]@);
                }
                j = j + 1;
            }
            i = i + 1;
        }
        proof {
            assert(edits_disjoint(evs)) by {
                assert forall|a: int, b: int|
                    0 <= a < evs.len() && 0 <= b < evs.len() && a != b implies !is_prefix_of(
                    (#[trigger] evs[a]).path,
                    (#[trigger] evs[b]).path,
                ) by {
                    if a < b {
                    } else {
                    }
                }
            }
        }
        let mut cur: Slot = Slot::Node(copy_node(self.base));
        let mut k: usize = 0;
        while k < self.edits.len()
            invariant
                k <= self.edits.len(),
                s == SlotView::Node(self.base@),
                evs == edits_view(self.edits@),
                cur@ == apply_edits(s, evs.take(k as int)),
            decreases self.edits.len() - k,
        {
            proof {
                assert(evs.take(k + 1) =~= evs.take(k as int).push(evs[k as int]));
                lemma_apply_edits_push(s, evs.take(k as int), evs[k as int]);
                assert(self.edits[k as int].path@.skip(0) =~= self.edits[k as int].path@);
            }
            cur = apply_one(cur, &self.edits[k].path, 0, copy_slot(&self.edits[k].new));
            k = k + 1;
        }
        proof {
            assert(evs.take(evs.len() as int) =~= evs);
            assert(forall|x: int|
                0 <= x < evs.len() ==> (#[trigger] evs[x]).path.len() > 0 || evs[x].new is Node)
                by {
                assert forall|x: int| 0 <= x < evs.len() implies (#[trigger] evs[x]).path.len() > 0
                    || evs[x].new is Node by {
                    if evs[x].path.len() == 0 {
                        assert(slot_at(s, evs[x].path) == Some(s));
                    }
                }
            }
            lemma_apply_edits_node(s, evs);
        }
        match cur {
            Slot::Node(n) => Ok(n),
            _ => {
                proof {
                    assert(false);
                }
                Err(BatchError::NotReachable)
            },
        }
    }
}

/// A committed replacement really lands: the slot at the edited path in the
/// new tree is the replacement itself.
pub proof fn lemma_replace_at_hits(s: SlotView, path: Seq<usize>, new: SlotView)
    requires
        slot_at(s, path) is Some,
    ensures
        slot_at(replace_at(s, path, new), path) == Some(new),
    decreases path.len(),
{
    if path.len() > 0 {
        match s {
            SlotView::Node(n) => {
                let i0 = path[0] as int;
                assert(i0 < n.children.len());
                lemma_replace_at_hits(n.children[i0], path.drop_first(), new);
            },
            _ => {},
        }
    }
}

/// Structural sharing: replacing the subtree at one path leaves the subtree
/// at every disjoint path (neither path a prefix of the other) exactly as
/// it was.
pub proof fn lemma_structural_sharing(s: SlotView, path: Seq<usize>, new: SlotView, q: Seq<usize>)
    requires
        !is_prefix_of(path, q),
        !is_prefix_of(q, path),
    ensures
        slot_at(replace_at(s, path, new), q) == slot_at(s, q),
    decreases path.len(),
{
    assert(path.len() > 0) by {
        if path.len() == 0 {
            assert(path =~= q.take(0));
        }
    }
    assert(q.len() > 0) by {
        if q.len() == 0 {
            assert(q =~= path.take(0));
        }
    }
    match s {
        SlotView::Node(n) => {
            let i0 = path[0] as int;
            let j0 = q[0] as int;
            if i0 < n.children.len() {
                if i0 == j0 {
                    assert(!is_prefix_of(path.drop_first(), q.drop_first())) by {
                        if is_prefix_of(path.drop_first(), q.drop_first()) {
                            lemma_prefix_step(path, q);
                        }
                    }
                    assert(!is_prefix_of(q.drop_first(), path.drop_first())) by {
                        if is_prefix_of(q.drop_first(), path.drop_first()) {
                            lemma_prefix_step(q, path);
                        }
                    }
                    lemma_structural_sharing(n.children[i0], path.drop_first(), new, q.drop_first());
                }
            }
        },
        _ => {},
    }
}

/// Structural sharing at commit level: a committed batch with a single
/// replacement leaves the subtree at every path disjoint from the edit
/// exactly as it was in the base tree, and the edited path holds the
/// replacement.
pub proof fn lemma_commit_single_edit(s: SlotView, e: EditView, q: Seq<usize>)
    requires
        slot_at(s, e.path) is Some,
        !is_prefix_of(e.path, q),
        !is_prefix_of(q, e.path),
    ensures
        slot_at(apply_edits(s, seq![e]), q) == slot_at(s, q),
        slot_at(apply_edits(s, seq![e]), e.path) == Some(e.new),
{
    assert(seq![e].drop_first() =~= Seq::<EditView>::empty());
    assert(seq![e][0] == e);
    assert(apply_edits(replace_at(s, e.path, e.new), Seq::<EditView>::empty()) == replace_at(
        s,
        e.path,
        e.new,
    ));
    assert(apply_edits(s, seq![e]) == replace_at(s, e.path, e.new));
    lemma_structural_sharing(s, e.path, e.new, q);
    lemma_replace_at_hits(s, e.path, e.new);
}

/// If the heads agree and the tails are prefixes, the whole paths are
/// prefixes.
proof fn lemma_prefix_step(a: Seq<usize>, b: Seq<usize>)
    requires
        a.len() > 0,
        b.len() > 0,
        a[0] == b[0],
        is_prefix_of(a.drop_first(), b.drop_first()),
    ensures
        is_prefix_of(a, b),
{
    assert(a =~= b.take(a.len() as int)) by {
        assert(forall|k: int|
            1 <= k < a.len() ==> a[k] == a.drop_first()[k - 1] && b.drop_first().take(
                a.len() - 1,
            )[k - 1] == b[k]);
        assert(a.drop_first() == b.drop_first().take(a.len() - 1));
    }
}

} // verus!
