//! The diagnostics an analysis reports: errors first, then the lints and
//! other advisories, each group in the order it was found.

use crate::diagnostic::CompilerDiagnostic;
use vstd::prelude::*;
use vstd::std_specs::iter::IteratorSpec;

verus! {

/// The errors among the diagnostics, in order.
pub open spec fn errors_of(diagnostics: Seq<CompilerDiagnostic>) -> Seq<CompilerDiagnostic>
    decreases diagnostics.len(),
{
    if diagnostics.len() == 0 {
        Seq::empty()
    } else if diagnostics.last().is_error {
        errors_of(diagnostics.drop_last()).push(diagnostics.last())
    } else {
        errors_of(diagnostics.drop_last())
    }
}

/// The diagnostics that are not errors, in order.
pub open spec fn lints_of(diagnostics: Seq<CompilerDiagnostic>) -> Seq<CompilerDiagnostic>
    decreases diagnostics.len(),
{
    if diagnostics.len() == 0 {
        Seq::empty()
    } else if !diagnostics.last().is_error {
        lints_of(diagnostics.drop_last()).push(diagnostics.last())
    } else {
        lints_of(diagnostics.drop_last())
    }
}

/// Whether every error comes before every other diagnostic.
pub open spec fn errors_lead(diagnostics: Seq<CompilerDiagnostic>) -> bool {
    forall|i: int, j: int| 0 <= i < j < diagnostics.len() && #[trigger] diagnostics[j].is_error ==> #[trigger] diagnostics[i].is_error
}

/// The diagnostics with the errors first, keeping the order within each
/// group.
pub fn order_diagnostics_by_severity(diagnostics: Vec<CompilerDiagnostic>) -> (ordered: Vec<CompilerDiagnostic>)
    ensures
        ordered@ == errors_of(diagnostics@) + lints_of(diagnostics@),
{
    let ghost all = diagnostics@;
    let mut errors: Vec<CompilerDiagnostic> = Vec::new();
    let mut lints: Vec<CompilerDiagnostic> = Vec::new();
    for diagnostic in iter: diagnostics.into_iter()
        invariant
            iter.seq() == all,
            errors@ == errors_of(all.take(iter.index())),
            lints@ == lints_of(all.take(iter.index())),
    {
        let ghost k = iter.index();
        proof {
            assert(all.take(k + 1).drop_last() =~= all.take(k));
            assert(all.take(k + 1).last() == diagnostic);
        }
        if diagnostic.is_error {
            errors.push(diagnostic);
        } else {
            lints.push(diagnostic);
        }
    }
    proof {
        assert(all.take(all.len() as int) =~= all);
    }
    errors.append(&mut lints);
    errors
}

} // verus!

verus! {

/// Diagnostics whose errors lead split at the number of errors: the errors
/// before, the rest after.
pub proof fn lemma_split_at_errors(diagnostics: Seq<CompilerDiagnostic>)
    requires
        errors_lead(diagnostics),
    ensures
        errors_of(diagnostics).len() <= diagnostics.len(),
        errors_of(diagnostics) == diagnostics.take(errors_of(diagnostics).len() as int),
        lints_of(diagnostics) == diagnostics.skip(errors_of(diagnostics).len() as int),
        forall|i: int| 0 <= i < diagnostics.len() ==> (#[trigger] diagnostics[i].is_error <==> i < errors_of(diagnostics).len()),
    decreases diagnostics.len(),
{
    if diagnostics.len() > 0 {
        let prefix = diagnostics.drop_last();
        assert(errors_lead(prefix)) by {
            assert forall|i: int, j: int| 0 <= i < j < prefix.len() && #[trigger] prefix[j].is_error implies #[trigger] prefix[i].is_error by {
                assert(diagnostics[j].is_error);
            }
        }
        lemma_split_at_errors(prefix);
        let c = errors_of(prefix).len() as int;
        if diagnostics.last().is_error {
            assert forall|i: int| 0 <= i < prefix.len() implies #[trigger] prefix[i].is_error by {
                assert(diagnostics[i].is_error);
            }
            assert(c == prefix.len());
            assert(errors_of(diagnostics) =~= diagnostics.take(c + 1));
            assert(lints_of(diagnostics) =~= diagnostics.skip(c + 1));
        } else {
            assert(errors_of(diagnostics) =~= diagnostics.take(c));
            assert(lints_of(diagnostics) =~= diagnostics.skip(c));
        }
        assert forall|i: int| 0 <= i < diagnostics.len() implies (#[trigger] diagnostics[i].is_error <==> i < errors_of(
            diagnostics,
        ).len()) by {
            if i < prefix.len() {
                assert(prefix[i] == diagnostics[i]);
            }
        }
    }
}

/// What an analysis reports.
pub struct Analysis {
    diagnostics: Vec<CompilerDiagnostic>,
}

impl View for Analysis {
    type V = Seq<CompilerDiagnostic>;

    closed spec fn view(&self) -> Seq<CompilerDiagnostic> {
        self.diagnostics@
    }
}

impl Analysis {
    #[verifier::type_invariant]
    spec fn errors_first(self) -> bool {
        errors_lead(self.diagnostics@)
    }

    /// An analysis reporting `diagnostics`, errors first.
    pub fn from_diagnostics(diagnostics: Vec<CompilerDiagnostic>) -> (analysis: Self)
        ensures
            analysis@ == errors_of(diagnostics@) + lints_of(diagnostics@),
            errors_of(analysis@) == errors_of(diagnostics@),
            lints_of(analysis@) == lints_of(diagnostics@),
    {
        let ghost all = diagnostics@;
        let ordered = order_diagnostics_by_severity(diagnostics);
        proof {
            lemma_groups(all);
            lemma_errors_then_lints(errors_of(all), lints_of(all));
        }
        Analysis { diagnostics: ordered }
    }

    /// Every diagnostic, errors first.
    pub fn diagnostics(&self) -> (all: &[CompilerDiagnostic])
        ensures
            all@ == self@,
            all@ == errors_of(self@) + lints_of(self@),
    {
        proof {
            use_type_invariant(self);
            lemma_split_at_errors(self.diagnostics@);
            assert(self.diagnostics@ =~= self.diagnostics@.take(errors_of(self.diagnostics@).len() as int)
                + self.diagnostics@.skip(errors_of(self.diagnostics@).len() as int));
        }
        self.diagnostics.as_slice()
    }

    /// How many of the diagnostics are errors.
    fn error_count(&self) -> (count: usize)
        ensures
            count == errors_of(self@).len(),
    {
        proof {
            use_type_invariant(self);
            lemma_split_at_errors(self.diagnostics@);
        }
        let mut low: usize = 0;
        let mut high: usize = self.diagnostics.len();
        while low < high
            invariant
                0 <= low <= high <= self.diagnostics@.len(),
                forall|i: int| 0 <= i < self.diagnostics@.len() ==> (#[trigger] self.diagnostics@[i].is_error <==> i
                    < errors_of(self.diagnostics@).len()),
                forall|i: int| 0 <= i < low ==> #[trigger] self.diagnostics@[i].is_error,
                forall|i: int| high <= i < self.diagnostics@.len() ==> !#[trigger] self.diagnostics@[i].is_error,
            decreases high - low,
        {
            let middle = low + (high - low) / 2;
            if self.diagnostics[middle].is_error {
                low = middle + 1;
            } else {
                high = middle;
            }
        }
        proof {
            let c = errors_of(self.diagnostics@).len() as int;
            if (low as int) < c {
                assert(self.diagnostics@[low as int].is_error);
            }
            if c < low {
                assert(self.diagnostics@[c].is_error);
            }
        }
        low
    }

    /// The errors, in order.
    pub fn errors(&self) -> (errors: &[CompilerDiagnostic])
        ensures
            errors@ == errors_of(self@),
    {
        proof {
            use_type_invariant(self);
            lemma_split_at_errors(self.diagnostics@);
        }
        let count = self.error_count();
        let (errors, _) = self.diagnostics.as_slice().split_at(count);
        errors
    }

    /// The diagnostics that are not errors, in order.
    pub fn lints(&self) -> (lints: &[CompilerDiagnostic])
        ensures
            lints@ == lints_of(self@),
    {
        proof {
            use_type_invariant(self);
            lemma_split_at_errors(self.diagnostics@);
        }
        let count = self.error_count();
        let (_, lints) = self.diagnostics.as_slice().split_at(count);
        lints
    }

    /// Adds an error after the errors already reported.
    pub fn push_error(&mut self, error: CompilerDiagnostic)
        requires
            error.is_error,
        ensures
            errors_of(final(self)@) == errors_of(old(self)@).push(error),
            lints_of(final(self)@) == lints_of(old(self)@),
    {
        proof {
            use_type_invariant(&*self);
            lemma_split_at_errors(self.diagnostics@);
        }
        let count = self.error_count();
        let mut diagnostics = Vec::new();
        std::mem::swap(&mut diagnostics, &mut self.diagnostics);
        let ghost before = diagnostics@;
        diagnostics.insert(count, error);
        proof {
            let errors = errors_of(before);
            let lints = lints_of(before);
            assert(diagnostics@ =~= errors.push(error) + lints);
            assert forall|i: int| 0 <= i < errors.push(error).len() implies #[trigger] errors.push(error)[i].is_error by {
                if i < errors.len() {
                    assert(before[i].is_error);
                }
            }
            assert forall|i: int| 0 <= i < lints.len() implies !#[trigger] lints[i].is_error by {
                assert(lints[i] == before[errors.len() + i]);
            }
            lemma_errors_then_lints(errors.push(error), lints);
        }
        self.diagnostics = diagnostics;
    }

    /// Hands over every diagnostic, leaving none.
    pub fn take_diagnostics(&mut self) -> (all: Vec<CompilerDiagnostic>)
        ensures
            all@ == old(self)@,
            final(self)@.len() == 0,
    {
        let mut all = Vec::new();
        std::mem::swap(&mut all, &mut self.diagnostics);
        all
    }

    /// Whether the analysis found an error.
    pub fn failed(&self) -> (failed: bool)
        ensures
            failed == (errors_of(self@).len() > 0),
    {
        self.error_count() > 0
    }
}

/// The errors are errors and the rest are not.
pub proof fn lemma_groups(diagnostics: Seq<CompilerDiagnostic>)
    ensures
        forall|i: int| 0 <= i < errors_of(diagnostics).len() ==> #[trigger] errors_of(diagnostics)[i].is_error,
        forall|i: int| 0 <= i < lints_of(diagnostics).len() ==> !#[trigger] lints_of(diagnostics)[i].is_error,
    decreases diagnostics.len(),
{
    if diagnostics.len() > 0 {
        lemma_groups(diagnostics.drop_last());
    }
}

/// Errors followed by other diagnostics lead with their errors, and split
/// back into the two.
pub proof fn lemma_errors_then_lints(errors: Seq<CompilerDiagnostic>, lints: Seq<CompilerDiagnostic>)
    requires
        forall|i: int| 0 <= i < errors.len() ==> #[trigger] errors[i].is_error,
        forall|i: int| 0 <= i < lints.len() ==> !#[trigger] lints[i].is_error,
    ensures
        errors_lead(errors + lints),
        errors_of(errors + lints) == errors,
        lints_of(errors + lints) == lints,
    decreases lints.len(), errors.len(),
{
    let all = errors + lints;
    assert forall|i: int, j: int| 0 <= i < j < all.len() && #[trigger] all[j].is_error implies #[trigger] all[i].is_error by {
        if j >= errors.len() {
            assert(all[j] == lints[j - errors.len()]);
        }
    }
    if lints.len() > 0 {
        assert(all.drop_last() =~= errors + lints.drop_last());
        lemma_errors_then_lints(errors, lints.drop_last());
        assert(all.last() == lints.last());
    } else if errors.len() > 0 {
        assert(all =~= errors);
        assert(all.drop_last() =~= errors.drop_last() + lints);
        lemma_errors_then_lints(errors.drop_last(), lints);
    } else {
        assert(all =~= Seq::<CompilerDiagnostic>::empty());
    }
}

} // verus!
