//! The diagnostic and action envelope: what a rule reports for a finding,
//! and the optional fix it offers alongside.

use vstd::prelude::*;

use crate::location::TextRange;
use crate::mutation::EditView;
use crate::mutation::MutationBatch;
use crate::mutation::edits_view;
use crate::syntax::NodeView;

verus! {

/// How grave a finding is.
#[derive(Clone, Copy, PartialEq, Eq, Structural, Debug)]
pub enum Severity {
    Error,
    Warning,
    Information,
}

/// What sort of action a fix is.
#[derive(Clone, Copy, PartialEq, Eq, Structural, Debug)]
pub enum ActionCategory {
    QuickFix,
    Refactor,
}

/// Whether a fix is safe to apply unattended or may be incorrect and needs
/// review.
#[derive(Clone, Copy, PartialEq, Eq, Structural, Debug)]
pub enum Applicability {
    Always,
    MaybeIncorrect,
}

/// A finding: where it is, how grave it is, what it says, and any further
/// notes.  Immutable once constructed, and independent of any fix.
#[derive(Debug)]
pub struct Diagnostic {
    pub range: TextRange,
    pub severity: Severity,
    pub message: String,
    pub notes: Vec<String>,
}

/// Ghost image of a diagnostic.
#[verifier::ext_equal]
pub ghost struct DiagnosticView {
    pub range: TextRange,
    pub severity: Severity,
    pub message: Seq<char>,
    pub notes: Seq<Seq<char>>,
}

impl View for Diagnostic {
    type V = DiagnosticView;

    open spec fn view(&self) -> DiagnosticView {
        DiagnosticView {
            range: self.range,
            severity: self.severity,
            message: self.message@,
            notes: self.notes@.map_values(|n: String| n@),
        }
    }
}

/// A fix offered for a finding: its category, its applicability, a human
/// description, and the mutation batch that realizes it.  Constructed once
/// per match and never mutated.
pub struct RuleAction<'a> {
    pub category: ActionCategory,
    pub applicability: Applicability,
    pub message: String,
    pub mutation: MutationBatch<'a>,
}

/// Ghost image of an action: the batch is represented by its base tree and
/// its recorded edits.
#[verifier::ext_equal]
pub ghost struct ActionView {
    pub category: ActionCategory,
    pub applicability: Applicability,
    pub message: Seq<char>,
    pub base: NodeView,
    pub edits: Seq<EditView>,
}

impl<'a> View for RuleAction<'a> {
    type V = ActionView;

    open spec fn view(&self) -> ActionView {
        ActionView {
            category: self.category,
            applicability: self.applicability,
            message: self.message@,
            base: self.mutation.base@,
            edits: edits_view(self.mutation.edits@),
        }
    }
}

} // verus!
