//! The validation engine: focus nodes from targets, value nodes by path,
//! every component of every compiled shape judged, results gathered in a report.

use vstd::prelude::*;
use crate::compiler::{find_shape, CompiledSchema, CompiledShape, CompiledV, compiled_view};
use crate::constraints::{
    all_results, facts_aligned, is_ok_with, facts_view, lemma_facts_irrelevant, ConstraintError, FocusValues, FocusValuesV, ValueNodes,
};
use crate::closure::instance_of;
use crate::graph::{
    contains_term, objects_of, subjects_of, terms_view, triples_view, with_predicate, SRDFGraph,
    TripleV,
};
use crate::report::{results_view, ResultV, ValidationReport, ValidationResult};
use crate::shacl::{targets_view, ComponentV, SHACLPath, Target, TargetV};
use crate::strategy::{class_of, native_facts, native_results, validate_native, validate_sparql, QuerySRDF};
use crate::term::{Term, TermV};
use crate::vocab::{rdf_type, rdf_type_v};

verus! {

/// The subjects of the first `n` typing triples of `g` that are instances of
/// `c` through `rdfs:subClassOf*`, in order.
pub open spec fn instances_upto(g: Seq<TripleV>, c: TermV, n: int) -> Seq<TermV>
    decreases n,
{
    if n <= 0 {
        Seq::empty()
    } else {
        let prev = instances_upto(g, c, n - 1);
        let t = with_predicate(g, rdf_type_v())[n - 1];
        if instance_of(g, t.s, c) {
            prev.push(t.s)
        } else {
            prev
        }
    }
}

/// The typed subjects of `g` that are instances of `c`, each as often as it
/// is typed.
pub open spec fn instances_spec(g: Seq<TripleV>, c: TermV) -> Seq<TermV> {
    instances_upto(g, c, with_predicate(g, rdf_type_v()).len() as int)
}

/// The nodes that one target selects: the node itself, or the instances of
/// the class: those typed with it, or with `transitive` those typed with it
/// or with one of its subclasses.
pub open spec fn target_nodes(g: Seq<TripleV>, t: TargetV, transitive: bool) -> Seq<TermV> {
    match t {
        TargetV::Node(n) => seq![n],
        TargetV::Class(c) => if transitive {
            instances_spec(g, c)
        } else {
            subjects_of(g, rdf_type_v(), c)
        },
    }
}

/// `acc` extended with those of the first `n` of `xs` that it lacks, in order.
pub open spec fn add_new(acc: Seq<TermV>, xs: Seq<TermV>, n: int) -> Seq<TermV>
    decreases n,
{
    if n <= 0 {
        acc
    } else {
        let prev = add_new(acc, xs, n - 1);
        if prev.contains(xs[n - 1]) {
            prev
        } else {
            prev.push(xs[n - 1])
        }
    }
}

/// The focus nodes of the first `k` targets, each once, in order of discovery.
pub open spec fn focus_upto(g: Seq<TripleV>, ts: Seq<TargetV>, k: int, transitive: bool) -> Seq<TermV>
    decreases k,
{
    if k <= 0 {
        Seq::empty()
    } else {
        let xs = target_nodes(g, ts[k - 1], transitive);
        add_new(focus_upto(g, ts, k - 1, transitive), xs, xs.len() as int)
    }
}

pub open spec fn focus_spec(g: Seq<TripleV>, ts: Seq<TargetV>, transitive: bool) -> Seq<TermV> {
    focus_upto(g, ts, ts.len() as int, transitive)
}

/// The value nodes of a focus node: the node itself for a node shape, the
/// objects of the path otherwise.
pub open spec fn values_of(g: Seq<TripleV>, path: Option<Seq<char>>, f: TermV) -> Seq<TermV> {
    match path {
        None => seq![f],
        Some(p) => objects_of(g, f, p),
    }
}

pub open spec fn value_nodes_spec(g: Seq<TripleV>, path: Option<Seq<char>>, focus: Seq<TermV>) -> Seq<
    FocusValuesV,
> {
    focus.map_values(|f: TermV| FocusValuesV { focus: f, values: values_of(g, path, f) })
}

pub open spec fn path_view(p: Option<SHACLPath>) -> Option<Seq<char>> {
    match p {
        Some(x) => Some(x@),
        None => None,
    }
}

/// Appends to `acc` the nodes of `xs` that it lacks.
fn add_new_terms(acc: &mut Vec<Term>, xs: &Vec<Term>)
    ensures
        terms_view(final(acc)@) == add_new(terms_view(old(acc)@), terms_view(xs@), xs@.len() as int),
{
    let ghost start = terms_view(acc@);
    let mut i: usize = 0;
    while i < xs.len()
        invariant
            0 <= i <= xs@.len(),
            terms_view(acc@) == add_new(start, terms_view(xs@), i as int),
        decreases xs.len() - i,
    {
        if !contains_term(acc, &xs[i]) {
            let ghost before = terms_view(acc@);
            acc.push(xs[i].clone());
            assert(terms_view(acc@) =~= before.push(terms_view(xs@)[i as int]));
        }
        i += 1;
    }
}

/// The typed subjects of `g` that are instances of `c` through
/// `rdfs:subClassOf*`.
pub fn instances_of(g: &SRDFGraph, c: &Term) -> (r: Vec<Term>)
    ensures
        terms_view(r@) == instances_spec(g@, c@),
{
    let typed = g.triples_with_predicate(rdf_type());
    let ghost tv = triples_view(typed@);
    let mut out: Vec<Term> = Vec::new();
    assert(terms_view(out@) =~= Seq::<TermV>::empty());
    let mut i: usize = 0;
    while i < typed.len()
        invariant
            0 <= i <= typed@.len(),
            tv == triples_view(typed@),
            tv == with_predicate(g@, rdf_type_v()),
            terms_view(out@) == instances_upto(g@, c@, i as int),
        decreases typed.len() - i,
    {
        let s = &typed[i].subject;
        assert(tv[i as int].s == s@);
        if g.is_instance_of(s, c) {
            let ghost before = terms_view(out@);
            out.push(s.clone());
            assert(terms_view(out@) =~= before.push(s@));
        }
        i += 1;
    }
    out
}

/// The focus nodes that `targets` select, each once; class targets follow
/// `rdfs:subClassOf*` when `transitive` holds.
pub fn focus_nodes(g: &SRDFGraph, targets: &Vec<Target>, transitive: bool) -> (r: Vec<Term>)
    ensures
        terms_view(r@) == focus_spec(g@, targets_view(targets@), transitive),
{
    let ghost tv = targets_view(targets@);
    let mut out: Vec<Term> = Vec::new();
    assert(terms_view(out@) =~= Seq::<TermV>::empty());
    let mut k: usize = 0;
    while k < targets.len()
        invariant
            0 <= k <= targets@.len(),
            tv == targets_view(targets@),
            terms_view(out@) == focus_upto(g@, tv, k as int, transitive),
        decreases targets.len() - k,
    {
        let xs = match &targets[k] {
            Target::TargetNode(n) => {
                let mut v: Vec<Term> = Vec::new();
                v.push(n.clone());
                assert(terms_view(v@) =~= seq![n@]);
                v
            },
            Target::TargetClass(c) => if transitive {
                instances_of(g, c)
            } else {
                g.subjects_with_predicate_object(rdf_type(), c)
            },
        };
        assert(terms_view(xs@) == target_nodes(g@, tv[k as int], transitive));
        add_new_terms(&mut out, &xs);
        k += 1;
    }
    out
}

/// The value nodes that `path` reaches from each focus node; each focus
/// node is its own value node where there is no path.
pub fn value_nodes(g: &SRDFGraph, path: &Option<SHACLPath>, focus: &Vec<Term>) -> (r: ValueNodes)
    ensures
        r@ == value_nodes_spec(g@, path_view(*path), terms_view(focus@)),
{
    let ghost fv = terms_view(focus@);
    let ghost spec = value_nodes_spec(g@, path_view(*path), fv);
    let mut entries: Vec<FocusValues> = Vec::new();
    let mut i: usize = 0;
    while i < focus.len()
        invariant
            0 <= i <= focus@.len(),
            fv == terms_view(focus@),
            spec == value_nodes_spec(g@, path_view(*path), fv),
            entries@.map_values(|e: FocusValues| e@) == spec.take(i as int),
        decreases focus.len() - i,
    {
        let f = &focus[i];
        let values = match path {
            None => {
                let mut v: Vec<Term> = Vec::new();
                v.push(f.clone());
                assert(terms_view(v@) =~= seq![f@]);
                v
            },
            Some(SHACLPath::Predicate(p)) => g.objects_for_subject_predicate(f, p.as_str()),
        };
        let e = FocusValues { focus: f.clone(), values };
        let ghost before = entries@.map_values(|e: FocusValues| e@);
        entries.push(e);
        assert(e@ == spec[i as int]);
        assert(entries@.map_values(|e: FocusValues| e@) =~= before.push(e@));
        assert(spec.take(i + 1) =~= spec.take(i as int).push(spec[i as int]));
        i += 1;
    }
    let r = ValueNodes { entries };
    assert(spec.take(i as int) =~= spec);
    r
}

/// Whether a constraint error stops the run or is recorded beside the report.
#[derive(Debug, Clone, Copy, PartialEq, Eq, Structural)]
pub enum ErrorPolicy {
    /// The first constraint error ends the run.
    Strict,
    /// Constraint errors are recorded as diagnostics; the run goes on.
    BestEffort,
}

/// The native results of the first `k` components of `s` on `vn`; a
/// `LessThan` component contributes none.
pub open spec fn components_results(g: Seq<TripleV>, s: CompiledV, vn: Seq<FocusValuesV>, k: int) -> Seq<
    ResultV,
>
    decreases k,
{
    if k <= 0 {
        Seq::empty()
    } else {
        let c = s.components[k - 1];
        components_results(g, s, vn, k - 1) + if c is LessThan {
            Seq::empty()
        } else {
            native_results(c, s.id, g, vn)
        }
    }
}

/// The number of `LessThan` components among the first `k` of a shape.
pub open spec fn less_than_count(s: CompiledV, k: int) -> nat
    decreases k,
{
    if k <= 0 {
        0
    } else {
        less_than_count(s, k - 1) + if s.components[k - 1] is LessThan {
            1nat
        } else {
            0nat
        }
    }
}

/// The native results of all components of `s` on `vn`.
pub open spec fn all_components_results(g: Seq<TripleV>, s: CompiledV, vn: Seq<FocusValuesV>) -> Seq<
    ResultV,
> {
    components_results(g, s, vn, s.components.len() as int)
}

/// The native results of the first `k` nested shapes of `s`, each looked up
/// by identifier and judged on the focus nodes of `s`; an identifier
/// without a shape contributes none.
pub open spec fn nested_results(
    g: Seq<TripleV>,
    ss: Seq<CompiledV>,
    s: CompiledV,
    focus: Seq<TermV>,
    k: int,
) -> Seq<ResultV>
    decreases k,
{
    if k <= 0 {
        Seq::empty()
    } else {
        nested_results(g, ss, s, focus, k - 1) + match find_shape(ss, s.property_shapes[k - 1]) {
            Some(p) => all_components_results(g, p, value_nodes_spec(g, p.path, focus)),
            None => Seq::empty(),
        }
    }
}

/// The number of unimplemented components among the first `k` nested shapes of `s`.
pub open spec fn nested_less_than(ss: Seq<CompiledV>, s: CompiledV, k: int) -> nat
    decreases k,
{
    if k <= 0 {
        0
    } else {
        nested_less_than(ss, s, k - 1) + match find_shape(ss, s.property_shapes[k - 1]) {
            Some(p) => less_than_count(p, p.components.len() as int),
            None => 0nat,
        }
    }
}

/// The native results of one shape: its own components on the value nodes
/// of its focus nodes, then its nested shapes on the same focus nodes.
pub open spec fn shape_results(g: Seq<TripleV>, ss: Seq<CompiledV>, s: CompiledV, transitive: bool) -> Seq<
    ResultV,
> {
    let focus = focus_spec(g, s.targets, transitive);
    all_components_results(g, s, value_nodes_spec(g, s.path, focus)) + nested_results(
        g,
        ss,
        s,
        focus,
        s.property_shapes.len() as int,
    )
}

pub open spec fn shape_less_than(ss: Seq<CompiledV>, s: CompiledV) -> nat {
    less_than_count(s, s.components.len() as int) + nested_less_than(ss, s, s.property_shapes.len() as int)
}

/// The native results of the first `n` shapes.
pub open spec fn schema_results(g: Seq<TripleV>, ss: Seq<CompiledV>, n: int, transitive: bool) -> Seq<
    ResultV,
>
    decreases n,
{
    if n <= 0 {
        Seq::empty()
    } else {
        schema_results(g, ss, n - 1, transitive) + shape_results(g, ss, ss[n - 1], transitive)
    }
}

/// The number of unimplemented components that the first `n` shapes meet.
pub open spec fn schema_less_than(ss: Seq<CompiledV>, n: int) -> nat
    decreases n,
{
    if n <= 0 {
        0
    } else {
        schema_less_than(ss, n - 1) + shape_less_than(ss, ss[n - 1])
    }
}

/// All results of the native strategy on a compiled shapes graph.
pub open spec fn native_report(g: Seq<TripleV>, ss: Seq<CompiledV>) -> Seq<ResultV> {
    schema_results(g, ss, ss.len() as int, false)
}

/// The results of the query strategy where no component asks about
/// classes: as the native ones, but class targets follow `rdfs:subClassOf*`.
pub open spec fn query_report(g: Seq<TripleV>, ss: Seq<CompiledV>) -> Seq<ResultV> {
    schema_results(g, ss, ss.len() as int, true)
}

/// The number of unimplemented components that a run meets.
pub open spec fn unimplemented_count(ss: Seq<CompiledV>) -> nat {
    schema_less_than(ss, ss.len() as int)
}

pub open spec fn is_less_than_error(e: ConstraintError) -> bool {
    e matches ConstraintError::NotImplemented(n) && n@ == "LessThan"@
}

/// Judges every component of `s` natively on `vn` into `report`. Under a
/// strict policy the first unimplemented component ends the run.
fn run_components_native(
    s: &CompiledShape,
    vn: &ValueNodes,
    g: &SRDFGraph,
    policy: ErrorPolicy,
    report: &mut ValidationReport,
) -> (r: Result<(), ConstraintError>)
    ensures
        policy == ErrorPolicy::BestEffort ==> r is Ok,
        r is Ok ==> final(report)@ == old(report)@ + all_components_results(g@, s@, vn@),
        policy == ErrorPolicy::BestEffort ==> final(report).diagnostic_count() == old(
            report,
        ).diagnostic_count() + less_than_count(s@, s@.components.len() as int),
        policy == ErrorPolicy::Strict ==> (r is Err <==> less_than_count(
            s@,
            s@.components.len() as int,
        ) > 0),
        r matches Err(e) ==> is_less_than_error(e),
{
    let ghost start = report@;
    let ghost start_diag = report.diagnostic_count();
    let mut j: usize = 0;
    while j < s.components.len()
        invariant
            0 <= j <= s.components@.len(),
            report@ == start + components_results(g@, s@, vn@, j as int),
            policy == ErrorPolicy::BestEffort ==> report.diagnostic_count() == start_diag
                + less_than_count(s@, j as int),
            policy == ErrorPolicy::Strict ==> less_than_count(s@, j as int) == 0,
        decreases s.components.len() - j,
    {
        let c = &s.components[j];
        assert(s@.components[j as int] == c@);
        match validate_native(c, &s.id, g, vn) {
            Ok(results) => {
                report.add_results(results);
            },
            Err(e) => {
                if policy == ErrorPolicy::Strict {
                    proof {
                        lemma_count_positive(s@, j as int, s@.components.len() as int);
                    }
                    return Err(e);
                }
                report.add_diagnostic(e);
            },
        }
        j += 1;
    }
    Ok(())
}

proof fn lemma_count_positive(s: CompiledV, j: int, n: int)
    requires
        0 <= j < n <= s.components.len(),
        s.components[j] is LessThan,
    ensures
        less_than_count(s, n) > 0,
    decreases n,
{
    if n > j + 1 {
        lemma_count_positive(s, j, n - 1);
    }
}

proof fn lemma_nested_positive(ss: Seq<CompiledV>, s: CompiledV, k: int, n: int)
    requires
        0 <= k < n <= s.property_shapes.len(),
        find_shape(ss, s.property_shapes[k]) matches Some(p) && less_than_count(
            p,
            p.components.len() as int,
        ) > 0,
    ensures
        nested_less_than(ss, s, n) > 0,
    decreases n,
{
    if n > k + 1 {
        lemma_nested_positive(ss, s, k, n - 1);
    }
}

proof fn lemma_schema_positive(ss: Seq<CompiledV>, i: int, n: int)
    requires
        0 <= i < n <= ss.len(),
        shape_less_than(ss, ss[i]) > 0,
    ensures
        schema_less_than(ss, n) > 0,
    decreases n,
{
    if n > i + 1 {
        lemma_schema_positive(ss, i, n - 1);
    }
}

/// Judges one shape natively into `report`: its own components, then those
/// of each nested shape, found by identifier, on the same focus nodes.
fn run_shape_native(
    schema: &CompiledSchema,
    s: &CompiledShape,
    g: &SRDFGraph,
    policy: ErrorPolicy,
    report: &mut ValidationReport,
) -> (r: Result<(), ConstraintError>)
    ensures
        policy == ErrorPolicy::BestEffort ==> r is Ok,
        r is Ok ==> final(report)@ == old(report)@ + shape_results(g@, schema@, s@, false),
        policy == ErrorPolicy::BestEffort ==> final(report).diagnostic_count() == old(
            report,
        ).diagnostic_count() + shape_less_than(schema@, s@),
        policy == ErrorPolicy::Strict ==> (r is Err <==> shape_less_than(schema@, s@) > 0),
        r matches Err(e) ==> is_less_than_error(e),
{
    let ghost start = report@;
    let ghost start_diag = report.diagnostic_count();
    let focus = focus_nodes(g, &s.targets, false);
    let ghost fv = terms_view(focus@);
    let vn = value_nodes(g, &s.path, &focus);
    run_components_native(s, &vn, g, policy, report)?;
    let ghost own = report@;
    let ghost own_diag = report.diagnostic_count();
    let mut k: usize = 0;
    while k < s.property_shapes.len()
        invariant
            0 <= k <= s.property_shapes@.len(),
            fv == terms_view(focus@),
            fv == focus_spec(g@, s@.targets, false),
            own == start + all_components_results(g@, s@, value_nodes_spec(g@, s@.path, fv)),
            report@ == own + nested_results(g@, schema@, s@, fv, k as int),
            policy == ErrorPolicy::BestEffort ==> own_diag == start_diag + less_than_count(
                s@,
                s@.components.len() as int,
            ),
            policy == ErrorPolicy::BestEffort ==> report.diagnostic_count() == own_diag
                + nested_less_than(schema@, s@, k as int),
            policy == ErrorPolicy::Strict ==> less_than_count(s@, s@.components.len() as int) == 0,
            policy == ErrorPolicy::Strict ==> nested_less_than(schema@, s@, k as int) == 0,
        decreases s.property_shapes.len() - k,
    {
        assert(s@.property_shapes[k as int] == s.property_shapes@[k as int]@);
        match schema.get(&s.property_shapes[k]) {
            Some(p) => {
                let pvn = value_nodes(g, &p.path, &focus);
                match run_components_native(p, &pvn, g, policy, report) {
                    Ok(()) => {},
                    Err(e) => {
                        proof {
                            lemma_nested_positive(schema@, s@, k as int, s@.property_shapes.len() as int);
                        }
                        return Err(e);
                    },
                }
            },
            None => {},
        }
        k += 1;
    }
    Ok(())
}

/// Validates the data graph `g` against a compiled shapes graph with the
/// native strategy. Best effort: the report holds every result, and one
/// diagnostic per unimplemented component met. Strict: the run fails with
/// `NotImplemented` exactly when it meets an unimplemented component.
pub fn validate(schema: &CompiledSchema, g: &SRDFGraph, policy: ErrorPolicy) -> (r: Result<
    ValidationReport,
    ConstraintError,
>)
    ensures
        policy == ErrorPolicy::BestEffort ==> r is Ok,
        r matches Ok(rep) ==> rep@ == native_report(g@, schema@),
        policy == ErrorPolicy::BestEffort ==> (r matches Ok(rep) && rep.diagnostic_count()
            == unimplemented_count(schema@)),
        policy == ErrorPolicy::Strict ==> (r is Err <==> unimplemented_count(schema@) > 0),
        r matches Err(e) ==> is_less_than_error(e),
{
    let shapes = schema.shapes();
    let mut report = ValidationReport::new();
    let mut i: usize = 0;
    while i < shapes.len()
        invariant
            0 <= i <= shapes@.len(),
            compiled_view(shapes@) == schema@,
            report@ == schema_results(g@, schema@, i as int, false),
            policy == ErrorPolicy::BestEffort ==> report.diagnostic_count() == schema_less_than(
                schema@,
                i as int,
            ),
            policy == ErrorPolicy::Strict ==> schema_less_than(schema@, i as int) == 0,
        decreases shapes.len() - i,
    {
        assert(schema@[i as int] == shapes@[i as int]@);
        match run_shape_native(schema, &shapes[i], g, policy, &mut report) {
            Ok(()) => {},
            Err(e) => {
                proof {
                    lemma_schema_positive(schema@, i as int, schema@.len() as int);
                }
                return Err(e);
            },
        }
        i += 1;
    }
    Ok(report)
}

/// No component of the compiled shapes graph is a `Class` component.
pub open spec fn has_no_class(ss: Seq<CompiledV>) -> bool {
    forall|i: int, j: int|
        0 <= i < ss.len() && 0 <= j < ss[i].components.len() ==> !(#[trigger] ss[i].components[j] is Class)
}

pub open spec fn is_run_error(e: ConstraintError) -> bool {
    is_less_than_error(e) || e is Query
}

/// Class-membership flags arranged one per value node of `vn`.
pub open spec fn aligned_flags(vn: Seq<FocusValuesV>, raw: Seq<Seq<bool>>) -> Seq<Seq<bool>> {
    Seq::new(vn.len(), |i: int| Seq::new(vn[i].values.len(), |j: int| raw[i][j]))
}

/// The results of the first `k` components of `s` on `vn`, component `j`
/// judged with the class-membership flags `flags(j)`, one per value node;
/// where `flags(j)` is none the store failed and the component gave nothing.
pub open spec fn components_with(
    s: CompiledV,
    vn: Seq<FocusValuesV>,
    k: int,
    flags: spec_fn(int) -> Option<Seq<Seq<bool>>>,
) -> Seq<ResultV>
    decreases k,
{
    if k <= 0 {
        Seq::empty()
    } else {
        let c = s.components[k - 1];
        components_with(s, vn, k - 1, flags) + if c is LessThan {
            Seq::empty()
        } else {
            match flags(k - 1) {
                Some(f) => all_results(c, s.id, vn, aligned_flags(vn, f)),
                None => Seq::empty(),
            }
        }
    }
}

/// As `nested_results`, nested shape `k - 1` judged with the flags of slot `k`.
pub open spec fn nested_with(
    g: Seq<TripleV>,
    ss: Seq<CompiledV>,
    s: CompiledV,
    focus: Seq<TermV>,
    k: int,
    flags: spec_fn(int, int) -> Option<Seq<Seq<bool>>>,
) -> Seq<ResultV>
    decreases k,
{
    if k <= 0 {
        Seq::empty()
    } else {
        nested_with(g, ss, s, focus, k - 1, flags) + match find_shape(ss, s.property_shapes[k - 1]) {
            Some(p) => components_with(
                p,
                value_nodes_spec(g, p.path, focus),
                p.components.len() as int,
                |j: int| flags(k, j),
            ),
            None => Seq::empty(),
        }
    }
}

/// The query-strategy results of one shape, its own components judged with
/// the flags of slot 0 and its nested shapes with those of the later slots.
pub open spec fn shape_with(
    g: Seq<TripleV>,
    ss: Seq<CompiledV>,
    s: CompiledV,
    flags: spec_fn(int, int) -> Option<Seq<Seq<bool>>>,
) -> Seq<ResultV> {
    let focus = focus_spec(g, s.targets, true);
    components_with(s, value_nodes_spec(g, s.path, focus), s.components.len() as int, |j: int| flags(0, j))
        + nested_with(g, ss, s, focus, s.property_shapes.len() as int, flags)
}

/// The query-strategy results of the first `n` shapes, shape `i` judged
/// with the flags `flags(i, _, _)`.
pub open spec fn schema_with(
    g: Seq<TripleV>,
    ss: Seq<CompiledV>,
    n: int,
    flags: spec_fn(int, int, int) -> Option<Seq<Seq<bool>>>,
) -> Seq<ResultV>
    decreases n,
{
    if n <= 0 {
        Seq::empty()
    } else {
        schema_with(g, ss, n - 1, flags) + shape_with(g, ss, ss[n - 1], |k: int, j: int| flags(n - 1, k, j))
    }
}

proof fn lemma_components_with_frame(
    s: CompiledV,
    vn: Seq<FocusValuesV>,
    k: int,
    f1: spec_fn(int) -> Option<Seq<Seq<bool>>>,
    f2: spec_fn(int) -> Option<Seq<Seq<bool>>>,
)
    requires
        forall|j: int| 0 <= j < k ==> #[trigger] f1(j) == f2(j),
    ensures
        components_with(s, vn, k, f1) == components_with(s, vn, k, f2),
    decreases k,
{
    if k > 0 {
        lemma_components_with_frame(s, vn, k - 1, f1, f2);
        assert(f1(k - 1) == f2(k - 1));
    }
}

proof fn lemma_nested_with_frame(
    g: Seq<TripleV>,
    ss: Seq<CompiledV>,
    s: CompiledV,
    focus: Seq<TermV>,
    k: int,
    f1: spec_fn(int, int) -> Option<Seq<Seq<bool>>>,
    f2: spec_fn(int, int) -> Option<Seq<Seq<bool>>>,
)
    requires
        forall|a: int, b: int| 1 <= a <= k ==> #[trigger] f1(a, b) == f2(a, b),
    ensures
        nested_with(g, ss, s, focus, k, f1) == nested_with(g, ss, s, focus, k, f2),
    decreases k,
{
    if k > 0 {
        lemma_nested_with_frame(g, ss, s, focus, k - 1, f1, f2);
        match find_shape(ss, s.property_shapes[k - 1]) {
            Some(p) => {
                let h1 = |j: int| f1(k, j);
                let h2 = |j: int| f2(k, j);
                assert forall|j: int| 0 <= j < p.components.len() implies #[trigger] h1(j) == h2(j) by {
                    assert(f1(k, j) == f2(k, j));
                }
                lemma_components_with_frame(
                    p,
                    value_nodes_spec(g, p.path, focus),
                    p.components.len() as int,
                    h1,
                    h2,
                );
            },
            None => {},
        }
    }
}

proof fn lemma_shape_with_frame(
    g: Seq<TripleV>,
    ss: Seq<CompiledV>,
    s: CompiledV,
    f1: spec_fn(int, int) -> Option<Seq<Seq<bool>>>,
    f2: spec_fn(int, int) -> Option<Seq<Seq<bool>>>,
)
    requires
        forall|a: int, b: int| #[trigger] f1(a, b) == f2(a, b),
    ensures
        shape_with(g, ss, s, f1) == shape_with(g, ss, s, f2),
{
    let focus = focus_spec(g, s.targets, true);
    let h1 = |j: int| f1(0, j);
    let h2 = |j: int| f2(0, j);
    assert forall|j: int| 0 <= j < s.components.len() implies #[trigger] h1(j) == h2(j) by {
        assert(f1(0, j) == f2(0, j));
    }
    lemma_components_with_frame(s, value_nodes_spec(g, s.path, focus), s.components.len() as int, h1, h2);
    lemma_nested_with_frame(g, ss, s, focus, s.property_shapes.len() as int, f1, f2);
}

proof fn lemma_schema_with_frame(
    g: Seq<TripleV>,
    ss: Seq<CompiledV>,
    n: int,
    f1: spec_fn(int, int, int) -> Option<Seq<Seq<bool>>>,
    f2: spec_fn(int, int, int) -> Option<Seq<Seq<bool>>>,
)
    requires
        forall|a: int, b: int, c: int| 0 <= a < n ==> #[trigger] f1(a, b, c) == f2(a, b, c),
    ensures
        schema_with(g, ss, n, f1) == schema_with(g, ss, n, f2),
    decreases n,
{
    if n > 0 {
        lemma_schema_with_frame(g, ss, n - 1, f1, f2);
        let h1 = |k: int, j: int| f1(n - 1, k, j);
        let h2 = |k: int, j: int| f2(n - 1, k, j);
        assert forall|a: int, b: int| #[trigger] h1(a, b) == h2(a, b) by {
            assert(f1(n - 1, a, b) == f2(n - 1, a, b));
        }
        lemma_shape_with_frame(g, ss, ss[n - 1], h1, h2);
    }
}

proof fn lemma_aligned_flags(vn: Seq<FocusValuesV>, f: Seq<Seq<bool>>)
    requires
        facts_aligned(vn, f),
    ensures
        aligned_flags(vn, f) == f,
{
    assert forall|i: int| 0 <= i < vn.len() implies #[trigger] aligned_flags(vn, f)[i] =~= f[i] by {
        assert(f[i].len() == vn[i].values.len());
    }
    assert(aligned_flags(vn, f) =~= f);
}

/// Judges every component of `s` with the query strategy on `vn` into `report`.
fn run_components_sparql<S: QuerySRDF>(
    s: &CompiledShape,
    vn: &ValueNodes,
    g: &SRDFGraph,
    store: &S,
    policy: ErrorPolicy,
    report: &mut ValidationReport,
) -> (r: Result<(), ConstraintError>)
    ensures
        policy == ErrorPolicy::BestEffort ==> r is Ok,
        policy == ErrorPolicy::Strict && less_than_count(s@, s@.components.len() as int) > 0 ==> r is Err,
        policy == ErrorPolicy::Strict && less_than_count(s@, s@.components.len() as int) == 0 && (forall|j: int|
            0 <= j < s@.components.len() ==> !(#[trigger] s@.components[j] is Class)) ==> r is Ok,
        r matches Err(e) ==> is_run_error(e),
        r is Ok && (forall|j: int| 0 <= j < s@.components.len() ==> !(#[trigger] s@.components[j] is Class))
            ==> final(report)@ == old(report)@ + all_components_results(g@, s@, vn@),
        r is Ok ==> exists|fl: spec_fn(int) -> Option<Seq<Seq<bool>>>|
            final(report)@ == old(report)@ + #[trigger] components_with(
                s@,
                vn@,
                s@.components.len() as int,
                fl,
            ) && (policy == ErrorPolicy::Strict ==> forall|x: int| (#[trigger] fl(x)) is Some),
{
    let ghost start = report@;
    let ghost mut classless = true;
    let ghost mut fl: spec_fn(int) -> Option<Seq<Seq<bool>>> = |x: int| Some(Seq::<Seq<bool>>::empty());
    let mut j: usize = 0;
    while j < s.components.len()
        invariant
            0 <= j <= s.components@.len(),
            classless == (forall|k: int| 0 <= k < j ==> !(#[trigger] s@.components[k] is Class)),
            classless ==> report@ == start + components_results(g@, s@, vn@, j as int),
            policy == ErrorPolicy::Strict ==> less_than_count(s@, j as int) == 0,
            report@ == start + components_with(s@, vn@, j as int, fl),
            forall|x: int| x >= j ==> #[trigger] fl(x) == Some(Seq::<Seq<bool>>::empty()),
            policy == ErrorPolicy::Strict ==> forall|x: int| (#[trigger] fl(x)) is Some,
        decreases s.components.len() - j,
    {
        let c = &s.components[j];
        assert(s@.components[j as int] == c@);
        let ghost before = report@;
        let ghost old_fl = fl;
        let res = validate_sparql(c, &s.id, store, vn);
        let ghost rg = res;
        match res {
            Ok(results) => {
                report.add_results(results);
                proof {
                    if !(c@ is Class) {
                        lemma_facts_irrelevant(
                            c@,
                            s@.id,
                            vn@,
                            Seq::empty(),
                            native_facts(g@, vn@, class_of(c@)),
                            vn@.len() as int,
                        );
                        lemma_facts_irrelevant(
                            c@,
                            s@.id,
                            vn@,
                            Seq::empty(),
                            aligned_flags(vn@, Seq::empty()),
                            vn@.len() as int,
                        );
                        assert(fl(j as int) == Some(Seq::<Seq<bool>>::empty()));
                    } else {
                        let f = choose|f: Seq<Seq<bool>>|
                            facts_aligned(vn@, f) && is_ok_with(rg, #[trigger] all_results(c@, s@.id, vn@, f));
                        lemma_aligned_flags(vn@, f);
                        let jj = j as int;
                        fl = |x: int| if x == jj { Some(f) } else { old_fl(x) };
                        lemma_components_with_frame(s@, vn@, jj, fl, old_fl);
                    }
                }
            },
            Err(e) => {
                if policy == ErrorPolicy::Strict {
                    proof {
                        if c@ is LessThan {
                            lemma_count_positive(s@, j as int, s@.components.len() as int);
                        }
                    }
                    return Err(e);
                }
                report.add_diagnostic(e);
                proof {
                    let jj = j as int;
                    fl = |x: int| if x == jj { None } else { old_fl(x) };
                    lemma_components_with_frame(s@, vn@, jj, fl, old_fl);
                }
            },
        }
        proof {
            classless = classless && !(c@ is Class);
            assert(classless == (forall|k: int| 0 <= k < j + 1 ==> !(#[trigger] s@.components[k] is Class))) by {
                if !classless && !(c@ is Class) {
                    let k = choose|k: int| 0 <= k < j && (#[trigger] s@.components[k] is Class);
                }
            }
        }
        j += 1;
    }
    assert(report@ == start + components_with(s@, vn@, s@.components.len() as int, fl));
    Ok(())
}

/// Judges one shape with the query strategy: its own components, then those
/// of each nested shape on the same focus nodes.
#[verifier::rlimit(60)]
fn run_shape_sparql<S: QuerySRDF>(
    schema: &CompiledSchema,
    s: &CompiledShape,
    g: &SRDFGraph,
    store: &S,
    policy: ErrorPolicy,
    report: &mut ValidationReport,
) -> (r: Result<(), ConstraintError>)
    ensures
        policy == ErrorPolicy::BestEffort ==> r is Ok,
        policy == ErrorPolicy::Strict && shape_less_than(schema@, s@) > 0 ==> r is Err,
        policy == ErrorPolicy::Strict && shape_less_than(schema@, s@) == 0 && has_no_class(schema@)
            && (forall|j: int| 0 <= j < s@.components.len() ==> !(#[trigger] s@.components[j] is Class))
            ==> r is Ok,
        r matches Err(e) ==> is_run_error(e),
        r is Ok && has_no_class(schema@) && (forall|j: int|
            0 <= j < s@.components.len() ==> !(#[trigger] s@.components[j] is Class))
            ==> final(report)@ == old(report)@ + shape_results(g@, schema@, s@, true),
        r is Ok ==> exists|fl: spec_fn(int, int) -> Option<Seq<Seq<bool>>>|
            final(report)@ == old(report)@ + #[trigger] shape_with(g@, schema@, s@, fl) && (policy
                == ErrorPolicy::Strict ==> forall|a: int, b: int| (#[trigger] fl(a, b)) is Some),
{
    let ghost start = report@;
    let focus = focus_nodes(g, &s.targets, true);
    let ghost fv = terms_view(focus@);
    let vn = value_nodes(g, &s.path, &focus);
    run_components_sparql(s, &vn, g, store, policy, report)?;
    let ghost own = report@;
    let ghost own_ok = (forall|j: int| 0 <= j < s@.components.len() ==> !(#[trigger] s@.components[j] is Class));
    let ghost fl0 = choose|fl: spec_fn(int) -> Option<Seq<Seq<bool>>>|
        own == start + #[trigger] components_with(s@, vn@, s@.components.len() as int, fl) && (policy
            == ErrorPolicy::Strict ==> forall|x: int| (#[trigger] fl(x)) is Some);
    let ghost mut acc: spec_fn(int, int) -> Option<Seq<Seq<bool>>> = |a: int, b: int|
        if a == 0 {
            fl0(b)
        } else {
            Some(Seq::<Seq<bool>>::empty())
        };
    proof {
        let h = |j: int| acc(0, j);
        assert forall|j: int| 0 <= j < s@.components.len() implies #[trigger] h(j) == fl0(j) by {}
        lemma_components_with_frame(s@, vn@, s@.components.len() as int, h, fl0);
    }
    let mut k: usize = 0;
    while k < s.property_shapes.len()
        invariant
            0 <= k <= s.property_shapes@.len(),
            fv == terms_view(focus@),
            fv == focus_spec(g@, s@.targets, true),
            vn@ == value_nodes_spec(g@, s@.path, fv),
            own_ok == (forall|j: int| 0 <= j < s@.components.len() ==> !(#[trigger] s@.components[j] is Class)),
            own_ok ==> own == start + all_components_results(g@, s@, value_nodes_spec(g@, s@.path, fv)),
            has_no_class(schema@) ==> report@ == own + nested_results(g@, schema@, s@, fv, k as int),
            policy == ErrorPolicy::Strict ==> less_than_count(s@, s@.components.len() as int) == 0,
            policy == ErrorPolicy::Strict ==> nested_less_than(schema@, s@, k as int) == 0,
            own == start + components_with(s@, vn@, s@.components.len() as int, |j: int| acc(0, j)),
            report@ == own + nested_with(g@, schema@, s@, fv, k as int, acc),
            policy == ErrorPolicy::Strict ==> forall|a: int, b: int| (#[trigger] acc(a, b)) is Some,
            policy == ErrorPolicy::Strict && shape_less_than(schema@, s@) == 0 ==> nested_less_than(
                schema@,
                s@,
                s@.property_shapes.len() as int,
            ) == 0,
        decreases s.property_shapes.len() - k,
    {
        assert(s@.property_shapes[k as int] == s.property_shapes@[k as int]@);
        let ghost before = report@;
        let ghost old_acc = acc;
        match schema.get(&s.property_shapes[k]) {
            Some(p) => {
                let ghost pv = p@;
                proof {
                    if has_no_class(schema@) {
                        let q = choose|q: int| 0 <= q < schema@.len() && schema@[q] == pv;
                        assert forall|j: int| 0 <= j < pv.components.len() implies !(#[trigger] pv.components[j] is Class) by {
                            assert(!(schema@[q].components[j] is Class));
                        }
                    }
                    if policy == ErrorPolicy::Strict && shape_less_than(schema@, s@) == 0 && less_than_count(
                        pv,
                        pv.components.len() as int,
                    ) > 0 {
                        lemma_nested_positive(schema@, s@, k as int, s@.property_shapes.len() as int);
                    }
                }
                let pvn = value_nodes(g, &p.path, &focus);
                run_components_sparql(p, &pvn, g, store, policy, report)?;
                proof {
                    let flp = choose|fl: spec_fn(int) -> Option<Seq<Seq<bool>>>|
                        report@ == before + #[trigger] components_with(pv, pvn@, pv.components.len() as int, fl)
                            && (policy == ErrorPolicy::Strict ==> forall|x: int| (#[trigger] fl(x)) is Some);
                    let kk = k as int + 1;
                    acc = |a: int, b: int| if a == kk { flp(b) } else { old_acc(a, b) };
                    lemma_nested_with_frame(g@, schema@, s@, fv, k as int, acc, old_acc);
                    let h1 = |j: int| acc(0, j);
                    let h2 = |j: int| old_acc(0, j);
                    assert forall|j: int| 0 <= j < s@.components.len() implies #[trigger] h1(j) == h2(j) by {}
                    lemma_components_with_frame(s@, vn@, s@.components.len() as int, h1, h2);
                    let h3 = |j: int| acc(kk, j);
                    assert forall|j: int| 0 <= j < pv.components.len() implies #[trigger] h3(j) == flp(j) by {}
                    lemma_components_with_frame(pv, pvn@, pv.components.len() as int, h3, flp);
                }
            },
            None => {},
        }
        k += 1;
    }
    assert(report@ == start + shape_with(g@, schema@, s@, acc));
    Ok(())
}

/// Validates the data graph `g` against a compiled shapes graph with the
/// query strategy: class membership is asked of `store`. Class targets
/// select the instances of the class and of its subclasses. The report
/// holds the results that judging gives under some class-membership flags,
/// one per value node, as the store answered; where a query failed the
/// component gives none (best effort only). Best effort never fails; strict
/// fails whenever the run meets an unimplemented component, and succeeds
/// where no component is unimplemented or asks about classes.
pub fn validate_with_store<S: QuerySRDF>(
    schema: &CompiledSchema,
    g: &SRDFGraph,
    store: &S,
    policy: ErrorPolicy,
) -> (r: Result<ValidationReport, ConstraintError>)
    ensures
        policy == ErrorPolicy::BestEffort ==> r is Ok,
        policy == ErrorPolicy::Strict && unimplemented_count(schema@) > 0 ==> r is Err,
        policy == ErrorPolicy::Strict && unimplemented_count(schema@) == 0 && has_no_class(schema@) ==> r is Ok,
        r matches Err(e) ==> is_run_error(e),
        r matches Ok(rep) ==> exists|fl: spec_fn(int, int, int) -> Option<Seq<Seq<bool>>>|
            rep@ == #[trigger] schema_with(g@, schema@, schema@.len() as int, fl) && (policy
                == ErrorPolicy::Strict ==> forall|a: int, b: int, c: int| (#[trigger] fl(a, b, c)) is Some),
        has_no_class(schema@) ==> (r matches Ok(rep) ==> rep@ == query_report(g@, schema@)),
{
    let shapes = schema.shapes();
    let mut report = ValidationReport::new();
    let ghost mut facc: spec_fn(int, int, int) -> Option<Seq<Seq<bool>>> = |a: int, b: int, c: int|
        Some(Seq::<Seq<bool>>::empty());
    let mut i: usize = 0;
    while i < shapes.len()
        invariant
            0 <= i <= shapes@.len(),
            compiled_view(shapes@) == schema@,
            has_no_class(schema@) ==> report@ == schema_results(g@, schema@, i as int, true),
            policy == ErrorPolicy::Strict ==> schema_less_than(schema@, i as int) == 0,
            report@ == schema_with(g@, schema@, i as int, facc),
            policy == ErrorPolicy::Strict ==> forall|a: int, b: int, c: int| (#[trigger] facc(a, b, c)) is Some,
        decreases shapes.len() - i,
    {
        assert(schema@[i as int] == shapes@[i as int]@);
        let ghost si = schema@[i as int];
        let ghost before = report@;
        let ghost old_facc = facc;
        assert(has_no_class(schema@) ==> forall|j: int| 0 <= j < si.components.len() ==> !(#[trigger] si.components[j] is Class));
        proof {
            if policy == ErrorPolicy::Strict && unimplemented_count(schema@) == 0 && shape_less_than(schema@, si) > 0 {
                lemma_schema_positive(schema@, i as int, schema@.len() as int);
            }
        }
        run_shape_sparql(schema, &shapes[i], g, store, policy, &mut report)?;
        proof {
            let fls = choose|fl: spec_fn(int, int) -> Option<Seq<Seq<bool>>>|
                report@ == before + #[trigger] shape_with(g@, schema@, si, fl) && (policy
                    == ErrorPolicy::Strict ==> forall|a: int, b: int| (#[trigger] fl(a, b)) is Some);
            let ii = i as int;
            facc = |a: int, b: int, c: int| if a == ii { fls(b, c) } else { old_facc(a, b, c) };
            lemma_schema_with_frame(g@, schema@, ii, facc, old_facc);
            let h = |k: int, j: int| facc(ii, k, j);
            assert forall|a: int, b: int| #[trigger] h(a, b) == fls(a, b) by {}
            lemma_shape_with_frame(g@, schema@, si, h, fls);
        }
        i += 1;
    }
    assert(report@ == schema_with(g@, schema@, schema@.len() as int, facc));
    Ok(report)
}

} // verus!
