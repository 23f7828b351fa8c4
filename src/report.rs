//! Validation results and the report that accumulates them.

use vstd::prelude::*;
use crate::constraints::ConstraintError;
use crate::term::{opt_view, Term, TermV};

verus! {

/// The kind of constraint component that produced a result.
#[derive(Debug, Clone, Copy, PartialEq, Eq, Structural)]
pub enum ComponentKind {
    MinCount,
    MaxCount,
    Datatype,
    Class,
    NodeKind,
    HasValue,
    In,
    LessThan,
    UniqueLang,
}

/// How grave a result is.
#[derive(Debug, Clone, Copy, PartialEq, Eq, Structural)]
pub enum Severity {
    Violation,
    Warning,
    Info,
}

/// The view of a validation result.
pub struct ResultV {
    pub focus: TermV,
    pub value: Option<TermV>,
    pub shape: TermV,
    pub component: ComponentKind,
    pub message: Option<Seq<char>>,
    pub severity: Severity,
}

pub open spec fn opt_term_view(o: Option<Term>) -> Option<TermV> {
    match o {
        Some(t) => Some(t@),
        None => None,
    }
}

/// One violation found on a focus node, possibly on one of its value nodes.
#[derive(Debug)]
pub struct ValidationResult {
    pub focus_node: Term,
    pub value_node: Option<Term>,
    pub source_shape: Term,
    pub source_component: ComponentKind,
    pub message: Option<String>,
    pub severity: Severity,
}

impl View for ValidationResult {
    type V = ResultV;

    open spec fn view(&self) -> ResultV {
        ResultV {
            focus: self.focus_node@,
            value: opt_term_view(self.value_node),
            shape: self.source_shape@,
            component: self.source_component,
            message: opt_view(self.message),
            severity: self.severity,
        }
    }
}

/// The result that a violation of `component` on `focus` (and `value`) gives.
pub open spec fn violation(
    focus: TermV,
    value: Option<TermV>,
    shape: TermV,
    component: ComponentKind,
) -> ResultV {
    ResultV { focus, value, shape, component, message: None, severity: Severity::Violation }
}

impl ValidationResult {
    /// A violation, without message.
    pub fn new(focus: &Term, value: Option<&Term>, shape: &Term, component: ComponentKind) -> (r:
        ValidationResult)
        ensures
            r@ == violation(
                focus@,
                match value {
                    Some(v) => Some(v@),
                    None => None,
                },
                shape@,
                component,
            ),
    {
        let value_node = match value {
            Some(v) => Some(v.clone()),
            None => None,
        };
        ValidationResult {
            focus_node: focus.clone(),
            value_node,
            source_shape: shape.clone(),
            source_component: component,
            message: None,
            severity: Severity::Violation,
        }
    }
}

pub open spec fn results_view(s: Seq<ValidationResult>) -> Seq<ResultV> {
    s.map_values(|r: ValidationResult| r@)
}

/// Whether a report with these results conforms: it does iff it holds none.
pub open spec fn conforms_spec(results: Seq<ResultV>) -> bool {
    results.len() == 0
}

/// The outcome of a validation run: the results, appended to in order.
/// It conforms iff it holds no result.
#[derive(Debug)]
pub struct ValidationReport {
    results: Vec<ValidationResult>,
    diagnostics: Vec<ConstraintError>,
}

impl View for ValidationReport {
    type V = Seq<ResultV>;

    closed spec fn view(&self) -> Seq<ResultV> {
        results_view(self.results@)
    }
}

impl ValidationReport {
    /// An empty report, which conforms.
    pub fn new() -> (r: ValidationReport)
        ensures
            r@ == Seq::<ResultV>::empty(),
            conforms_spec(r@),
            r.diagnostic_count() == 0,
    {
        let r = ValidationReport { results: Vec::new(), diagnostics: Vec::new() };
        assert(r@ =~= Seq::<ResultV>::empty());
        r
    }

    /// A report that holds `results`, in order.
    pub fn from_results(results: Vec<ValidationResult>) -> (r: ValidationReport)
        ensures
            r@ == results_view(results@),
            r.diagnostic_count() == 0,
    {
        ValidationReport { results, diagnostics: Vec::new() }
    }

    /// The number of constraint errors recorded beside the results.
    pub closed spec fn diagnostic_count(&self) -> nat {
        self.diagnostics@.len()
    }

    /// Records a constraint error that did not stop the run. It does not
    /// change the results or the conformance.
    pub fn add_diagnostic(&mut self, e: ConstraintError)
        ensures
            final(self)@ == old(self)@,
            final(self).diagnostic_count() == old(self).diagnostic_count() + 1,
    {
        self.diagnostics.push(e);
    }

    /// The constraint errors recorded beside the results, in order.
    pub fn diagnostics(&self) -> (r: &Vec<ConstraintError>)
        ensures
            r@.len() == self.diagnostic_count(),
    {
        &self.diagnostics
    }

    /// Whether the report conforms: it holds no result.
    pub fn conforms(&self) -> (r: bool)
        ensures
            r == conforms_spec(self@),
    {
        self.results.len() == 0
    }

    /// The results, in the order in which they were added.
    pub fn results(&self) -> (r: &Vec<ValidationResult>)
        ensures
            results_view(r@) == self@,
    {
        &self.results
    }

    /// Appends one result.
    pub fn add_result(&mut self, result: ValidationResult)
        ensures
            final(self)@ == old(self)@.push(result@),
            final(self).diagnostic_count() == old(self).diagnostic_count(),
    {
        self.results.push(result);
        assert(results_view(self.results@) =~= results_view(old(self).results@).push(result@));
    }

    /// Appends results, in order.
    pub fn add_results(&mut self, results: Vec<ValidationResult>)
        ensures
            final(self)@ == old(self)@ + results_view(results@),
            final(self).diagnostic_count() == old(self).diagnostic_count(),
    {
        let mut results = results;
        let ghost other = results@;
        self.results.append(&mut results);
        assert(results_view(self.results@) =~= results_view(old(self).results@) + results_view(
            other,
        ));
    }
}

/// A new report conforms; once a result has been appended it does not
/// conform, and appending further results never makes it conform again.
pub proof fn lemma_conformance_is_monotone(
    before: Seq<ResultV>,
    added: ResultV,
    later: Seq<ResultV>,
)
    ensures
        conforms_spec(Seq::<ResultV>::empty()),
        !conforms_spec(before.push(added)),
        !conforms_spec(before.push(added) + later),
{
}

} // verus!
