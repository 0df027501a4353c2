//! The rule contract: a rule declares the node kind it queries, computes
//! zero or one result state per matched node, and derives a diagnostic and
//! an optional fix action from each state.  The engine runs a rule over
//! every match in document order; a fix is only ever offered alongside a
//! reported finding.

use vstd::prelude::*;

use crate::diagnostic::ActionView;
use crate::diagnostic::Diagnostic;
use crate::diagnostic::DiagnosticView;
use crate::diagnostic::RuleAction;
use crate::query::for_each_node_of_kind;
use crate::query::paths_view;
use crate::query::slot_matches;
use crate::syntax::Node;
use crate::syntax::NodeKind;
use crate::syntax::NodeView;
use crate::syntax::SlotView;
use crate::syntax::node_source;
use crate::syntax::slot_at;

verus! {

/// Which quote character fixes should prefer when they synthesize a string
/// literal.
#[derive(Clone, Copy, PartialEq, Eq, Structural, Debug)]
pub enum QuoteStyle {
    Double,
    Single,
}

impl QuoteStyle {
    /// Whether the preferred quote is the double quote.
    pub fn is_double(&self) -> (r: bool)
        ensures
            r == (*self == QuoteStyle::Double),
    {
        match self {
            QuoteStyle::Double => true,
            QuoteStyle::Single => false,
        }
    }
}

/// Caller-supplied configuration handed to every rule.
#[derive(Clone, Copy, PartialEq, Eq, Structural, Debug)]
pub struct AnalyzerOptions {
    pub preferred_quote: QuoteStyle,
}

impl AnalyzerOptions {
    /// The preferred quote style.
    pub fn as_preferred_quote(&self) -> (r: QuoteStyle)
        ensures
            r == self.preferred_quote,
    {
        self.preferred_quote
    }
}

/// A transient, read-only handle pairing one matched node with the tree it
/// was matched in, its path, and the caller's configuration.  Its lifetime
/// is bounded by the analysis pass that produced it.
pub struct RuleContext<'a> {
    pub root: &'a Node,
    pub node: &'a Node,
    pub path: Vec<usize>,
    pub options: &'a AnalyzerOptions,
}

impl<'a> RuleContext<'a> {
    /// Well-formedness: the path leads from the root to the matched node,
    /// and the tree's source fits in memory.
    pub open spec fn wf(&self) -> bool {
        &&& slot_at(SlotView::Node(self.root@), self.path@) == Some(SlotView::Node(self.node@))
        &&& node_source(self.root@).len() <= usize::MAX
    }

    /// The matched node.
    pub fn query(&self) -> (r: &'a Node)
        ensures
            r == self.node,
    {
        self.node
    }

    /// The tree the match was found in.
    pub fn root(&self) -> (r: &'a Node)
        ensures
            r == self.root,
    {
        self.root
    }
}

/// The contract every rule implements.  `run` computes the rule's result
/// state for one match; `diagnostic` derives the reported finding from a
/// state; `action` derives the optional fix.  Each exec step is pinned to
/// the rule's own spec-level description, so the engine's output is a
/// function of the tree, the options, and the rule alone.
pub trait Rule {
    /// The rule's per-match analysis state.
    type State: View;

    /// The node kind this rule queries for.
    spec fn query_kind() -> NodeKind;

    /// What `run` returns for the node at `path` in `root`.
    spec fn run_spec(root: NodeView, path: Seq<usize>) -> Option<<Self::State as View>::V>;

    /// What `diagnostic` returns for a given state.
    spec fn diagnostic_spec(root: NodeView, path: Seq<usize>, st: <Self::State as View>::V) -> Option<
        DiagnosticView,
    >;

    /// What `action` returns for a given state.
    spec fn action_spec(
        root: NodeView,
        path: Seq<usize>,
        st: <Self::State as View>::V,
        options: AnalyzerOptions,
    ) -> Option<ActionView>;

    /// The queried kind, for the traversal layer.
    fn query_kind_exec() -> (k: NodeKind)
        ensures
            k == Self::query_kind(),
    ;

    /// The analysis step: zero or one result state for this match.
    fn run(ctx: &RuleContext<'_>) -> (r: Option<Self::State>)
        requires
            ctx.wf(),
            ctx.node@.kind == Self::query_kind(),
        ensures
            (match r {
                Some(st) => Self::run_spec(ctx.root@, ctx.path@) == Some(st@),
                None => Self::run_spec(ctx.root@, ctx.path@) is None,
            }),
    ;

    /// The diagnostic step: the reported finding, if this state is one.
    fn diagnostic(ctx: &RuleContext<'_>, st: &Self::State) -> (r: Option<Diagnostic>)
        requires
            ctx.wf(),
            ctx.node@.kind == Self::query_kind(),
            Self::run_spec(ctx.root@, ctx.path@) == Some(st@),
        ensures
            (match r {
                Some(d) => Self::diagnostic_spec(ctx.root@, ctx.path@, st@) == Some(d@),
                None => Self::diagnostic_spec(ctx.root@, ctx.path@, st@) is None,
            }),
    ;

    /// The action step: the offered fix, if any.
    fn action<'a>(ctx: &RuleContext<'a>, st: &Self::State) -> (r: Option<RuleAction<'a>>)
        requires
            ctx.wf(),
            ctx.node@.kind == Self::query_kind(),
            Self::run_spec(ctx.root@, ctx.path@) == Some(st@),
        ensures
            (match r {
                Some(a) => Self::action_spec(ctx.root@, ctx.path@, st@, *ctx.options) == Some(a@),
                None => Self::action_spec(ctx.root@, ctx.path@, st@, *ctx.options) is None,
            }),
    ;
}

/// One emitted finding: the diagnostic, and the fix offered alongside it,
/// if any.
pub struct RuleOutput<'a> {
    pub diagnostic: Diagnostic,
    pub action: Option<RuleAction<'a>>,
}

impl<'a> View for RuleOutput<'a> {
    type V = (DiagnosticView, Option<ActionView>);

    open spec fn view(&self) -> (DiagnosticView, Option<ActionView>) {
        (
            self.diagnostic@,
            match self.action {
                Some(a) => Some(a@),
                None => None,
            },
        )
    }
}

/// The ghost images of a list of outputs.
pub open spec fn outputs_view(os: Seq<RuleOutput<'_>>) -> Seq<(DiagnosticView, Option<ActionView>)> {
    os.map_values(|o: RuleOutput<'_>| o@)
}

/// What running rule `R` over the matches at `paths` emits, in order: for
/// each path that leads to a node of the queried kind, the rule's state is
/// computed; a state with a diagnostic emits that diagnostic together with
/// the rule's optional action; everything else emits nothing.
pub open spec fn outputs_spec<R: Rule>(
    root: NodeView,
    options: AnalyzerOptions,
    paths: Seq<Seq<usize>>,
) -> Seq<(DiagnosticView, Option<ActionView>)>
    decreases paths.len(),
{
    if paths.len() == 0 {
        Seq::empty()
    } else {
        output_at_spec::<R>(root, options, paths[0]) + outputs_spec::<R>(
            root,
            options,
            paths.drop_first(),
        )
    }
}

/// What one match at `path` emits: nothing, or one diagnostic with an
/// optional action.
pub open spec fn output_at_spec<R: Rule>(
    root: NodeView,
    options: AnalyzerOptions,
    path: Seq<usize>,
) -> Seq<(DiagnosticView, Option<ActionView>)> {
    match slot_at(SlotView::Node(root), path) {
        Some(SlotView::Node(m)) => {
            if m.kind == R::query_kind() {
                match R::run_spec(root, path) {
                    Some(st) => {
                        match R::diagnostic_spec(root, path, st) {
                            Some(d) => seq![(d, R::action_spec(root, path, st, options))],
                            None => Seq::empty(),
                        }
                    },
                    None => Seq::empty(),
                }
            } else {
                Seq::empty()
            }
        },
        _ => Seq::empty(),
    }
}

/// Emitting one more match appends what it alone emits.
pub proof fn lemma_outputs_spec_push<R: Rule>(
    root: NodeView,
    options: AnalyzerOptions,
    paths: Seq<Seq<usize>>,
    p: Seq<usize>,
)
    ensures
        outputs_spec::<R>(root, options, paths.push(p)) == outputs_spec::<R>(root, options, paths)
            + output_at_spec::<R>(root, options, p),
    decreases paths.len(),
{
    if paths.len() == 0 {
        assert(paths.push(p).drop_first() =~= Seq::<Seq<usize>>::empty());
        assert(paths.push(p)[0] == p);
        assert(outputs_spec::<R>(root, options, Seq::<Seq<usize>>::empty()) =~= Seq::<
            (DiagnosticView, Option<ActionView>),
        >::empty());
        assert(output_at_spec::<R>(root, options, p) + Seq::<
            (DiagnosticView, Option<ActionView>),
        >::empty() =~= Seq::<(DiagnosticView, Option<ActionView>)>::empty() + output_at_spec::<R>(
            root,
            options,
            p,
        ));
    } else {
        assert(paths.push(p).drop_first() =~= paths.drop_first().push(p));
        assert(paths.push(p)[0] == paths[0]);
        lemma_outputs_spec_push::<R>(root, options, paths.drop_first(), p);
        assert(output_at_spec::<R>(root, options, paths[0]) + (outputs_spec::<R>(
            root,
            options,
            paths.drop_first(),
        ) + output_at_spec::<R>(root, options, p)) =~= (output_at_spec::<R>(root, options, paths[0])
            + outputs_spec::<R>(root, options, paths.drop_first())) + output_at_spec::<R>(
            root,
            options,
            p,
        ));
    }
}

/// Runs rule `R` over every node of its queried kind in `root`, in
/// document order, and returns each reported finding with its optional
/// fix.  The tree is never changed; the caller decides what to do with the
/// diagnostics and the offered batches.
pub fn run_rule<'a, R: Rule>(root: &'a Node, options: &'a AnalyzerOptions) -> (out: Vec<
    RuleOutput<'a>,
>)
    requires
        node_source(root@).len() <= usize::MAX,
    ensures
        outputs_view(out@) == outputs_spec::<R>(
            root@,
            *options,
            slot_matches(SlotView::Node(root@), Seq::empty(), R::query_kind()),
        ),
{
    let kind = R::query_kind_exec();
    let paths = for_each_node_of_kind(root, kind);
    let ghost pvs = paths_view(paths@);
    let mut out: Vec<RuleOutput<'a>> = Vec::new();
    let mut i: usize = 0;
    proof {
        assert(outputs_view(out@) =~= Seq::<(DiagnosticView, Option<ActionView>)>::empty());
        assert(pvs.take(0) =~= Seq::<Seq<usize>>::empty());
    }
    while i < paths.len()
        invariant
            i <= paths.len(),
            pvs == paths_view(paths@),
            pvs.len() == paths@.len(),
            kind == R::query_kind(),
            node_source(root@).len() <= usize::MAX,
            outputs_view(out@) == outputs_spec::<R>(root@, *options, pvs.take(i as int)),
        decreases paths.len() - i,
    {
        proof {
            assert(pvs[i as int] == paths@[i as int]@);
            assert(pvs.take(i + 1) =~= pvs.take(i as int).push(pvs[i as int]));
            lemma_outputs_spec_push::<R>(root@, *options, pvs.take(i as int), pvs[i as int]);
        }
        let path = &paths[i];
        let ghost out0 = outputs_view(out@);
        match crate::syntax::node_at_path(root, path) {
            Some(node) => {
                if node.kind == kind {
                    let ctx = RuleContext {
                        root,
                        node,
                        path: crate::query::copy_path(path),
                        options,
                    };
                    proof {
                        assert(ctx.wf());
                        assert(ctx.node@.kind == R::query_kind());
                    }
                    match R::run(&ctx) {
                        Some(st) => {
                            match R::diagnostic(&ctx, &st) {
                                Some(d) => {
                                    let a = R::action(&ctx, &st);
                                    out.push(RuleOutput { diagnostic: d, action: a });
                                    proof {
                                        assert(outputs_view(out@) =~= out0 + output_at_spec::<R>(
                                            root@,
                                            *options,
                                            pvs[i as int],
                                        ));
                                    }
                                },
                                None => {
                                    proof {
                                        assert(outputs_view(out@) =~= out0 + output_at_spec::<R>(
                                            root@,
                                            *options,
                                            pvs[i as int],
                                        ));
                                    }
                                },
                            }
                        },
                        None => {
                            proof {
                                assert(outputs_view(out@) =~= out0 + output_at_spec::<R>(
                                    root@,
                                    *options,
                                    pvs[i as int],
                                ));
                            }
                        },
                    }
                } else {
                    proof {
                        assert(outputs_view(out@) =~= out0 + output_at_spec::<R>(
                            root@,
                            *options,
                            pvs[i as int],
                        ));
                    }
                }
            },
            None => {
                proof {
                    assert(outputs_view(out@) =~= out0 + output_at_spec::<R>(
                        root@,
                        *options,
                        pvs[i as int],
                    ));
                }
            },
        }
        i = i + 1;
    }
    proof {
        assert(pvs.take(pvs.len() as int) =~= pvs);
    }
    out
}

} // verus!
