//! Judging constraint components against value nodes.
//!
//! Every component is judged by one code path, whatever strategy fetched the
//! facts it needs. The only fact that differs per strategy is class
//! membership, which is handed in as one flag per value node.

use vstd::prelude::*;
use crate::graph::{contains_term, terms_view};
use crate::report::{results_view, violation, ComponentKind, ResultV, ValidationResult};
use crate::shacl::{Component, ComponentV, NodeKind};
use crate::term::{rdf_lang_string_v, xsd_string_v, Term, TermV};

verus! {

/// A failure to evaluate a constraint component.
#[derive(Debug, PartialEq)]
pub enum ConstraintError {
    /// The component has no executable semantics; it carries the component's name.
    NotImplemented(String),
    /// A query store failed to answer a generated query.
    Query(String),
    /// A component could not be built from its compiled form.
    Create(String),
}

/// The view of a focus node with its value nodes.
pub struct FocusValuesV {
    pub focus: TermV,
    pub values: Seq<TermV>,
}

/// A focus node with the value nodes that its path reaches.
#[derive(Debug)]
pub struct FocusValues {
    pub focus: Term,
    pub values: Vec<Term>,
}

impl View for FocusValues {
    type V = FocusValuesV;

    open spec fn view(&self) -> FocusValuesV {
        FocusValuesV { focus: self.focus@, values: terms_view(self.values@) }
    }
}

/// The value nodes of each focus node, in order.
#[derive(Debug)]
pub struct ValueNodes {
    pub entries: Vec<FocusValues>,
}

impl View for ValueNodes {
    type V = Seq<FocusValuesV>;

    open spec fn view(&self) -> Seq<FocusValuesV> {
        self.entries@.map_values(|e: FocusValues| e@)
    }
}

pub open spec fn facts_view(f: Seq<Vec<bool>>) -> Seq<Seq<bool>> {
    f.map_values(|v: Vec<bool>| v@)
}

/// One class-membership flag for each value node of each focus node.
pub open spec fn facts_aligned(vn: Seq<FocusValuesV>, facts: Seq<Seq<bool>>) -> bool {
    &&& facts.len() == vn.len()
    &&& forall|i: int| 0 <= i < vn.len() ==> #[trigger] facts[i].len() == vn[i].values.len()
}

pub open spec fn kind_of(t: TermV) -> NodeKind {
    match t {
        TermV::Iri(_) => NodeKind::Iri,
        TermV::BNode(_) => NodeKind::BlankNode,
        TermV::Lit { .. } => NodeKind::Literal,
    }
}

pub open spec fn lang_of(t: TermV) -> Option<Seq<char>> {
    match t {
        TermV::Lit { lang, .. } => lang,
        _ => None,
    }
}

/// The datatype IRI of a literal: the one it carries, else `rdf:langString`
/// when it has a language tag, else `xsd:string`.
pub open spec fn effective_datatype(datatype: Option<Seq<char>>, lang: Option<Seq<char>>) -> Seq<char> {
    match datatype {
        Some(d) => d,
        None => match lang {
            Some(_) => rdf_lang_string_v(),
            None => xsd_string_v(),
        },
    }
}

/// `t` is a literal whose datatype IRI is `dt`.
pub open spec fn has_datatype(t: TermV, dt: Seq<char>) -> bool {
    match t {
        TermV::Lit { datatype, lang, .. } => effective_datatype(datatype, lang) == dt,
        _ => false,
    }
}

/// One of the first `n` values has language tag `l`.
pub open spec fn lang_among(values: Seq<TermV>, n: int, l: Seq<char>) -> bool {
    exists|j: int| 0 <= j < n && #[trigger] lang_of(values[j]) == Some(l)
}

proof fn lemma_among_step(values: Seq<TermV>, i: int, m: Seq<char>)
    requires
        0 <= i < values.len(),
    ensures
        lang_among(values, i + 1, m) <==> (lang_among(values, i, m) || lang_of(values[i]) == Some(m)),
{
    if lang_among(values, i + 1, m) {
        let j = choose|j: int| 0 <= j < i + 1 && #[trigger] lang_of(values[j]) == Some(m);
        if j < i {
            assert(lang_among(values, i, m));
        }
    }
    if lang_among(values, i, m) {
        let j = choose|j: int| 0 <= j < i && #[trigger] lang_of(values[j]) == Some(m);
        assert(lang_of(values[j]) == Some(m));
    }
    if lang_of(values[i]) == Some(m) {
        assert(lang_of(values[i]) == Some(m));
    }
}

/// The language tag of value `i` is also the tag of an earlier value.
pub open spec fn lang_seen_before(values: Seq<TermV>, i: int) -> bool {
    match lang_of(values[i]) {
        Some(l) => lang_among(values, i, l),
        None => false,
    }
}

pub open spec fn kind_of_component(c: ComponentV) -> ComponentKind {
    match c {
        ComponentV::MinCount(_) => ComponentKind::MinCount,
        ComponentV::MaxCount(_) => ComponentKind::MaxCount,
        ComponentV::Datatype(_) => ComponentKind::Datatype,
        ComponentV::Class(_) => ComponentKind::Class,
        ComponentV::NodeKind(_) => ComponentKind::NodeKind,
        ComponentV::HasValue(_) => ComponentKind::HasValue,
        ComponentV::In(_) => ComponentKind::In,
        ComponentV::LessThan(_) => ComponentKind::LessThan,
        ComponentV::UniqueLang(_) => ComponentKind::UniqueLang,
    }
}

/// Components that are judged on each value node separately.
pub open spec fn is_per_value(c: ComponentV) -> bool {
    ||| c is Datatype
    ||| c is Class
    ||| c is NodeKind
    ||| c is In
    ||| c is UniqueLang
}

/// Value `i` violates the component; `member` holds the class-membership flags.
pub open spec fn value_fails(c: ComponentV, values: Seq<TermV>, member: Seq<bool>, i: int) -> bool {
    match c {
        ComponentV::Datatype(dt) => !has_datatype(values[i], dt),
        ComponentV::Class(_) => values[i] is Lit || !member[i],
        ComponentV::NodeKind(k) => kind_of(values[i]) != k,
        ComponentV::In(set) => !set.contains(values[i]),
        ComponentV::UniqueLang(flag) => flag && lang_seen_before(values, i),
        _ => false,
    }
}

/// The focus node as a whole violates a component that counts or looks for a value.
pub open spec fn focus_fails(c: ComponentV, values: Seq<TermV>) -> bool {
    match c {
        ComponentV::MinCount(n) => values.len() < n,
        ComponentV::MaxCount(n) => values.len() > n,
        ComponentV::HasValue(t) => !values.contains(t),
        _ => false,
    }
}

/// The violations among the first `n` values of one focus node, in order.
pub open spec fn flagged(
    c: ComponentV,
    shape: TermV,
    focus: TermV,
    values: Seq<TermV>,
    member: Seq<bool>,
    n: int,
) -> Seq<ResultV>
    decreases n,
{
    if n <= 0 {
        Seq::empty()
    } else {
        let prev = flagged(c, shape, focus, values, member, n - 1);
        if value_fails(c, values, member, n - 1) {
            prev.push(violation(focus, Some(values[n - 1]), shape, kind_of_component(c)))
        } else {
            prev
        }
    }
}

/// The results of a component on one focus node.
pub open spec fn focus_results(c: ComponentV, shape: TermV, e: FocusValuesV, member: Seq<bool>) -> Seq<
    ResultV,
> {
    if is_per_value(c) {
        flagged(c, shape, e.focus, e.values, member, e.values.len() as int)
    } else if focus_fails(c, e.values) {
        seq![violation(e.focus, None, shape, kind_of_component(c))]
    } else {
        Seq::empty()
    }
}

/// The results of a component on the first `n` focus nodes, in order.
pub open spec fn component_results(
    c: ComponentV,
    shape: TermV,
    vn: Seq<FocusValuesV>,
    facts: Seq<Seq<bool>>,
    n: int,
) -> Seq<ResultV>
    decreases n,
{
    if n <= 0 {
        Seq::empty()
    } else {
        component_results(c, shape, vn, facts, n - 1) + focus_results(c, shape, vn[n - 1], facts[n - 1])
    }
}

/// The results of a component on all focus nodes.
pub open spec fn all_results(
    c: ComponentV,
    shape: TermV,
    vn: Seq<FocusValuesV>,
    facts: Seq<Seq<bool>>,
) -> Seq<ResultV> {
    component_results(c, shape, vn, facts, vn.len() as int)
}

/// The kind of a component.
pub fn component_kind(c: &Component) -> (r: ComponentKind)
    ensures
        r == kind_of_component(c@),
{
    match c {
        Component::MinCount(_) => ComponentKind::MinCount,
        Component::MaxCount(_) => ComponentKind::MaxCount,
        Component::Datatype(_) => ComponentKind::Datatype,
        Component::Class(_) => ComponentKind::Class,
        Component::NodeKind(_) => ComponentKind::NodeKind,
        Component::HasValue(_) => ComponentKind::HasValue,
        Component::In(_) => ComponentKind::In,
        Component::LessThan(_) => ComponentKind::LessThan,
        Component::UniqueLang(_) => ComponentKind::UniqueLang,
    }
}

/// The kind of a term.
pub fn node_kind_of(t: &Term) -> (r: NodeKind)
    ensures
        r == kind_of(t@),
{
    match t {
        Term::Iri(_) => NodeKind::Iri,
        Term::BlankNode(_) => NodeKind::BlankNode,
        Term::Literal(_) => NodeKind::Literal,
    }
}

fn datatype_matches(t: &Term, dt: &String) -> (r: bool)
    ensures
        r == has_datatype(t@, dt@),
{
    match t {
        Term::Literal(l) => match &l.datatype {
            Some(d) => d.eq(dt),
            None => match &l.lang {
                Some(_) => {
                    let ls = "http://www.w3.org/1999/02/22-rdf-syntax-ns#langString".to_string();
                    ls.eq(dt)
                },
                None => {
                    let xs = "http://www.w3.org/2001/XMLSchema#string".to_string();
                    xs.eq(dt)
                },
            },
        },
        _ => false,
    }
}

fn lang_term(t: &Term) -> (r: Option<String>)
    ensures
        match r {
            Some(s) => lang_of(t@) == Some(s@),
            None => lang_of(t@) is None,
        },
{
    match t {
        Term::Literal(l) => match &l.lang {
            Some(s) => Some(s.clone()),
            None => None,
        },
        _ => None,
    }
}

fn contains_string(v: &Vec<String>, s: &String) -> (r: bool)
    ensures
        r == v@.map_values(|x: String| x@).contains(s@),
{
    let mut i: usize = 0;
    while i < v.len()
        invariant
            0 <= i <= v.len(),
            forall|k: int| 0 <= k < i ==> v@[k]@ != s@,
        decreases v.len() - i,
    {
        if v[i].eq(s) {
            assert(v@.map_values(|x: String| x@)[i as int] == s@);
            return true;
        }
        i += 1;
    }
    false
}

/// Appends the results of a component (other than `LessThan`) on one focus node.
fn judge_focus(
    c: &Component,
    shape: &Term,
    e: &FocusValues,
    member: &Vec<bool>,
    out: &mut Vec<ValidationResult>,
)
    requires
        !(c@ is LessThan),
        c@ is Class ==> member@.len() == e.values@.len(),
    ensures
        results_view(final(out)@) == results_view(old(out)@) + focus_results(c@, shape@, e@, member@),
{
    let kind = component_kind(c);
    let ghost cv = c@;
    let ghost vals = terms_view(e.values@);
    match c {
        Component::MinCount(n) => {
            if (e.values.len() as u64) < *n {
                out.push(ValidationResult::new(&e.focus, None, shape, kind));
                assert(results_view(out@) =~= results_view(old(out)@) + focus_results(c@, shape@, e@, member@));
            } else {
                assert(results_view(out@) =~= results_view(old(out)@) + focus_results(c@, shape@, e@, member@));
            }
            return;
        },
        Component::MaxCount(n) => {
            if (e.values.len() as u64) > *n {
                out.push(ValidationResult::new(&e.focus, None, shape, kind));
                assert(results_view(out@) =~= results_view(old(out)@) + focus_results(c@, shape@, e@, member@));
            } else {
                assert(results_view(out@) =~= results_view(old(out)@) + focus_results(c@, shape@, e@, member@));
            }
            return;
        },
        Component::HasValue(t) => {
            if !contains_term(&e.values, t) {
                out.push(ValidationResult::new(&e.focus, None, shape, kind));
                assert(results_view(out@) =~= results_view(old(out)@) + focus_results(c@, shape@, e@, member@));
            } else {
                assert(results_view(out@) =~= results_view(old(out)@) + focus_results(c@, shape@, e@, member@));
            }
            return;
        },
        _ => {},
    }
    let ghost start = results_view(out@);
    let mut langs: Vec<String> = Vec::new();
    let mut i: usize = 0;
    while i < e.values.len()
        invariant
            0 <= i <= e.values@.len(),
            cv == c@,
            is_per_value(cv),
            vals == terms_view(e.values@),
            kind == kind_of_component(cv),
            cv is Class ==> member@.len() == e.values@.len(),
            results_view(out@) == start + flagged(cv, shape@, e.focus@, vals, member@, i as int),
            cv is UniqueLang ==> forall|l: Seq<char>|
                langs@.map_values(|x: String| x@).contains(l) <==> #[trigger] lang_among(vals, i as int, l),
        decreases e.values.len() - i,
    {
        let v = &e.values[i];
        let fails = match c {
            Component::Datatype(dt) => !datatype_matches(v, dt),
            Component::Class(_) => v.is_literal() || !member[i],
            Component::NodeKind(k) => node_kind_of(v) != *k,
            Component::In(set) => !contains_term(set, v),
            Component::UniqueLang(flag) => {
                match lang_term(v) {
                    Some(l) => {
                        let seen = contains_string(&langs, &l);
                        if !seen {
                            let ghost before = langs@.map_values(|x: String| x@);
                            langs.push(l);
                            proof {
                                let after = langs@.map_values(|x: String| x@);
                                assert(after =~= before.push(lang_of(vals[i as int])->Some_0));
                                assert forall|m: Seq<char>| after.contains(m) <==> #[trigger] lang_among(vals, i + 1, m) by {
                                    if after.contains(m) {
                                        let q = choose|q: int| 0 <= q < after.len() && after[q] == m;
                                        if q < before.len() {
                                            assert(before[q] == m);
                                            assert(lang_among(vals, i as int, m));
                                            let j = choose|j: int| 0 <= j < i && #[trigger] lang_of(vals[j]) == Some(m);
                                            assert(lang_of(vals[j]) == Some(m));
                                        } else {
                                            assert(lang_of(vals[i as int]) == Some(m));
                                        }
                                    }
                                    if lang_among(vals, i + 1, m) {
                                        let j = choose|j: int| 0 <= j < i + 1 && #[trigger] lang_of(vals[j]) == Some(m);
                                        if j < i {
                                            assert(lang_among(vals, i as int, m));
                                            let q = choose|q: int| 0 <= q < before.len() && before[q] == m;
                                            assert(after[q] == m);
                                        } else {
                                            assert(after[before.len() as int] == m);
                                        }
                                    }
                                }
                            }
                        } else {
                            proof {
                                assert forall|m: Seq<char>| langs@.map_values(|x: String| x@).contains(m) <==> #[trigger] lang_among(vals, i + 1, m) by {
                                    lemma_among_step(vals, i as int, m);
                                }
                            }
                        }
                        *flag && seen
                    },
                    None => {
                        proof {
                            assert forall|m: Seq<char>| langs@.map_values(|x: String| x@).contains(m) <==> #[trigger] lang_among(vals, i + 1, m) by {
                                lemma_among_step(vals, i as int, m);
                            }
                        }
                        false
                    },
                }
            },
            _ => false,
        };
        assert(fails == value_fails(cv, vals, member@, i as int));
        let ghost before_out = results_view(out@);
        assert(vals[i as int] == v@);
        if fails {
            let r = ValidationResult::new(&e.focus, Some(v), shape, kind);
            out.push(r);
            assert(results_view(out@) =~= before_out.push(r@));
        }
        assert(results_view(out@) =~= start + flagged(cv, shape@, e.focus@, vals, member@, i + 1));
        i += 1;
    }
}

pub open spec fn is_not_implemented(r: Result<Vec<ValidationResult>, ConstraintError>, name: Seq<char>) -> bool {
    r matches Err(ConstraintError::NotImplemented(n)) && n@ == name
}

pub open spec fn is_ok_with(r: Result<Vec<ValidationResult>, ConstraintError>, results: Seq<ResultV>) -> bool {
    r matches Ok(v) && results_view(v@) == results
}

proof fn lemma_flagged_ignores_member(
    c: ComponentV,
    shape: TermV,
    focus: TermV,
    values: Seq<TermV>,
    m1: Seq<bool>,
    m2: Seq<bool>,
    n: int,
)
    requires
        !(c is Class),
    ensures
        flagged(c, shape, focus, values, m1, n) == flagged(c, shape, focus, values, m2, n),
    decreases n,
{
    if n > 0 {
        lemma_flagged_ignores_member(c, shape, focus, values, m1, m2, n - 1);
    }
}

/// Class-membership flags matter only to `Class`.
pub proof fn lemma_facts_irrelevant(
    c: ComponentV,
    shape: TermV,
    vn: Seq<FocusValuesV>,
    f1: Seq<Seq<bool>>,
    f2: Seq<Seq<bool>>,
    n: int,
)
    requires
        !(c is Class),
    ensures
        component_results(c, shape, vn, f1, n) == component_results(c, shape, vn, f2, n),
    decreases n,
{
    if n > 0 {
        lemma_facts_irrelevant(c, shape, vn, f1, f2, n - 1);
        let e = vn[n - 1];
        lemma_flagged_ignores_member(c, shape, e.focus, e.values, f1[n - 1], f2[n - 1], e.values.len() as int);
    }
}

/// Judges a component on every focus node of `vn`, with `facts` as the
/// class-membership flags. `LessThan` has no executable semantics: it is
/// reported as not implemented.
pub fn validate_component(
    c: &Component,
    shape: &Term,
    vn: &ValueNodes,
    facts: &Vec<Vec<bool>>,
) -> (r: Result<Vec<ValidationResult>, ConstraintError>)
    requires
        c@ is Class ==> facts_aligned(vn@, facts_view(facts@)),
    ensures
        c@ is LessThan ==> is_not_implemented(r, "LessThan"@),
        !(c@ is LessThan) ==> is_ok_with(r, all_results(c@, shape@, vn@, facts_view(facts@))),
{
    if let Component::LessThan(_) = c {
        return Err(ConstraintError::NotImplemented("LessThan".to_string()));
    }
    let ghost fv = facts_view(facts@);
    let empty: Vec<bool> = Vec::new();
    let mut out: Vec<ValidationResult> = Vec::new();
    let mut i: usize = 0;
    while i < vn.entries.len()
        invariant
            0 <= i <= vn.entries@.len(),
            !(c@ is LessThan),
            fv == facts_view(facts@),
            c@ is Class ==> facts_aligned(vn@, fv),
            results_view(out@) == component_results(c@, shape@, vn@, fv, i as int),
        decreases vn.entries.len() - i,
    {
        let e = &vn.entries[i];
        let ghost before = results_view(out@);
        if let Component::Class(_) = c {
            assert(fv[i as int].len() == vn@[i as int].values.len());
            judge_focus(c, shape, e, &facts[i], &mut out);
        } else {
            judge_focus(c, shape, e, &empty, &mut out);
            proof {
                lemma_flagged_ignores_member(
                    c@,
                    shape@,
                    e@.focus,
                    e@.values,
                    empty@,
                    fv[i as int],
                    e@.values.len() as int,
                );
            }
        }
        assert(vn@[i as int] == e@);
        i += 1;
    }
    Ok(out)
}

/// The `sh:uniqueLang` constraint: when set, no two value nodes of a focus
/// node may carry the same language tag.
#[derive(Debug, Clone, Copy, PartialEq, Eq, Structural)]
pub struct UniqueLang {
    unique_lang: bool,
}

impl UniqueLang {
    /// The constraint with its flag.
    pub fn new(unique_lang: bool) -> (r: UniqueLang)
        ensures
            r.is_set() == unique_lang,
    {
        UniqueLang { unique_lang }
    }

    pub closed spec fn is_set(&self) -> bool {
        self.unique_lang
    }

    /// The flag.
    pub fn unique_lang(&self) -> (r: bool)
        ensures
            r == self.is_set(),
    {
        self.unique_lang
    }

    /// The violations on `vn`: one for each value node whose language tag an
    /// earlier value node of the same focus node already carries.
    pub fn evaluate(&self, shape: &Term, vn: &ValueNodes) -> (r: Vec<ValidationResult>)
        ensures
            results_view(r@) == all_results(
                ComponentV::UniqueLang(self.is_set()),
                shape@,
                vn@,
                Seq::empty(),
            ),
    {
        let c = Component::UniqueLang(self.unique_lang);
        let facts: Vec<Vec<bool>> = Vec::new();
        let r = validate_component(&c, shape, vn, &facts);
        proof {
            lemma_facts_irrelevant(c@, shape@, vn@, facts_view(facts@), Seq::empty(), vn@.len() as int);
        }
        match r {
            Ok(v) => v,
            Err(_) => Vec::new(),
        }
    }
}

proof fn lemma_flagged_contains(
    c: ComponentV,
    shape: TermV,
    focus: TermV,
    values: Seq<TermV>,
    member: Seq<bool>,
    j: int,
    n: int,
)
    requires
        0 <= j < n <= values.len(),
        value_fails(c, values, member, j),
    ensures
        flagged(c, shape, focus, values, member, n).contains(
            violation(focus, Some(values[j]), shape, kind_of_component(c)),
        ),
    decreases n,
{
    let v = violation(focus, Some(values[j]), shape, kind_of_component(c));
    if n == j + 1 {
        let prev = flagged(c, shape, focus, values, member, j);
        assert(prev.push(v)[prev.len() as int] == v);
    } else {
        lemma_flagged_contains(c, shape, focus, values, member, j, n - 1);
        let prev = flagged(c, shape, focus, values, member, n - 1);
        let k = choose|k: int| 0 <= k < prev.len() && prev[k] == v;
        if value_fails(c, values, member, n - 1) {
            assert(prev.push(violation(focus, Some(values[n - 1]), shape, kind_of_component(c)))[k] == v);
        }
    }
}

proof fn lemma_results_contain(
    c: ComponentV,
    shape: TermV,
    vn: Seq<FocusValuesV>,
    facts: Seq<Seq<bool>>,
    i: int,
    n: int,
    r: ResultV,
)
    requires
        0 <= i < n <= vn.len(),
        focus_results(c, shape, vn[i], facts[i]).contains(r),
    ensures
        component_results(c, shape, vn, facts, n).contains(r),
    decreases n,
{
    if n == i + 1 {
        let prev = component_results(c, shape, vn, facts, i);
        let here = focus_results(c, shape, vn[i], facts[i]);
        let k = choose|k: int| 0 <= k < here.len() && here[k] == r;
        assert((prev + here)[prev.len() + k] == r);
    } else {
        lemma_results_contain(c, shape, vn, facts, i, n - 1, r);
        let prev = component_results(c, shape, vn, facts, n - 1);
        let k = choose|k: int| 0 <= k < prev.len() && prev[k] == r;
        assert((prev + focus_results(c, shape, vn[n - 1], facts[n - 1]))[k] == r);
    }
}

/// A literal value node always violates a `Class` component, whatever the
/// class and whatever the class-membership flags say: the results hold a
/// violation for it.
pub proof fn lemma_literal_violates_class(
    class: TermV,
    shape: TermV,
    vn: Seq<FocusValuesV>,
    facts: Seq<Seq<bool>>,
    i: int,
    j: int,
)
    requires
        0 <= i < vn.len(),
        0 <= j < vn[i].values.len(),
        vn[i].values[j] is Lit,
    ensures
        all_results(ComponentV::Class(class), shape, vn, facts).contains(
            violation(vn[i].focus, Some(vn[i].values[j]), shape, ComponentKind::Class),
        ),
{
    let c = ComponentV::Class(class);
    let e = vn[i];
    lemma_flagged_contains(c, shape, e.focus, e.values, facts[i], j, e.values.len() as int);
    lemma_results_contain(
        c,
        shape,
        vn,
        facts,
        i,
        vn.len() as int,
        violation(e.focus, Some(e.values[j]), shape, ComponentKind::Class),
    );
}

/// `MinCount(n)` gives a focus node exactly one violation, for the focus
/// node itself, when it has fewer than `n` value nodes, and none otherwise.
pub proof fn lemma_min_count(n: u64, shape: TermV, e: FocusValuesV, member: Seq<bool>)
    ensures
        e.values.len() < n ==> focus_results(ComponentV::MinCount(n), shape, e, member) == seq![
            violation(e.focus, None, shape, ComponentKind::MinCount),
        ],
        e.values.len() >= n ==> focus_results(ComponentV::MinCount(n), shape, e, member) == Seq::<
            ResultV,
        >::empty(),
{
}

proof fn lemma_flagged_none(
    c: ComponentV,
    shape: TermV,
    focus: TermV,
    values: Seq<TermV>,
    member: Seq<bool>,
    n: int,
)
    requires
        forall|j: int| 0 <= j < n ==> !#[trigger] value_fails(c, values, member, j),
    ensures
        flagged(c, shape, focus, values, member, n) == Seq::<ResultV>::empty(),
    decreases n,
{
    if n > 0 {
        lemma_flagged_none(c, shape, focus, values, member, n - 1);
    }
}

/// No two value nodes of one focus node carry the same language tag.
pub open spec fn tags_distinct(vn: Seq<FocusValuesV>) -> bool {
    forall|i: int, a: int, b: int|
        0 <= i < vn.len() && 0 <= a < b < vn[i].values.len() && lang_of(vn[i].values[a]) is Some
            ==> #[trigger] lang_of(vn[i].values[a]) != #[trigger] lang_of(vn[i].values[b])
}

/// `UniqueLang` yields nothing, so a report built from its results alone
/// conforms, when its flag is unset or no tag repeats within a focus node.
pub proof fn lemma_unique_lang_clean(flag: bool, shape: TermV, vn: Seq<FocusValuesV>, facts: Seq<Seq<bool>>)
    requires
        !flag || tags_distinct(vn),
    ensures
        all_results(ComponentV::UniqueLang(flag), shape, vn, facts) == Seq::<ResultV>::empty(),
        crate::report::conforms_spec(all_results(ComponentV::UniqueLang(flag), shape, vn, facts)),
{
    lemma_unique_lang_clean_upto(flag, shape, vn, facts, vn.len() as int);
}

proof fn lemma_unique_lang_clean_upto(
    flag: bool,
    shape: TermV,
    vn: Seq<FocusValuesV>,
    facts: Seq<Seq<bool>>,
    n: int,
)
    requires
        !flag || tags_distinct(vn),
        n <= vn.len(),
    ensures
        component_results(ComponentV::UniqueLang(flag), shape, vn, facts, n) == Seq::<ResultV>::empty(),
    decreases n,
{
    if n > 0 {
        let c = ComponentV::UniqueLang(flag);
        lemma_unique_lang_clean_upto(flag, shape, vn, facts, n - 1);
        let e = vn[n - 1];
        assert forall|j: int| 0 <= j < e.values.len() implies !#[trigger] value_fails(c, e.values, facts[n - 1], j) by {
            if flag && lang_seen_before(e.values, j) {
                let l = lang_of(e.values[j])->Some_0;
                let a = choose|a: int| 0 <= a < j && #[trigger] lang_of(e.values[a]) == Some(l);
                assert(lang_of(vn[n - 1].values[a]) != lang_of(vn[n - 1].values[j]));
            }
        }
        lemma_flagged_none(c, shape, e.focus, e.values, facts[n - 1], e.values.len() as int);
        assert(component_results(c, shape, vn, facts, n) =~= Seq::<ResultV>::empty());
    }
}

/// With its flag set, `UniqueLang` reports the later of two value nodes of
/// one focus node that carry the same language tag, so no report that holds
/// its results conforms.
pub proof fn lemma_unique_lang_repeat(
    shape: TermV,
    vn: Seq<FocusValuesV>,
    facts: Seq<Seq<bool>>,
    i: int,
    a: int,
    b: int,
    before: Seq<ResultV>,
)
    requires
        0 <= i < vn.len(),
        0 <= a < b < vn[i].values.len(),
        lang_of(vn[i].values[a]) is Some,
        lang_of(vn[i].values[a]) == lang_of(vn[i].values[b]),
    ensures
        all_results(ComponentV::UniqueLang(true), shape, vn, facts).contains(
            violation(vn[i].focus, Some(vn[i].values[b]), shape, ComponentKind::UniqueLang),
        ),
        !crate::report::conforms_spec(before + all_results(ComponentV::UniqueLang(true), shape, vn, facts)),
{
    let c = ComponentV::UniqueLang(true);
    let e = vn[i];
    let l = lang_of(e.values[b])->Some_0;
    assert(lang_of(e.values[a]) == Some(l));
    assert(lang_among(e.values, b, l));
    lemma_flagged_contains(c, shape, e.focus, e.values, facts[i], b, e.values.len() as int);
    let v = violation(e.focus, Some(e.values[b]), shape, ComponentKind::UniqueLang);
    lemma_results_contain(c, shape, vn, facts, i, vn.len() as int, v);
}

} // verus!
