//! The two engine strategies. They differ only in how class membership is
//! fetched: the native strategy walks the graph in-process, the query
//! strategy asks a store an `ASK` query per value node. Judging is shared.

use vstd::prelude::*;
use vstd::string::StringExecFns;
use crate::closure::instance_of;
use crate::constraints::{
    all_results, facts_aligned, facts_view, is_not_implemented, is_ok_with, lemma_facts_irrelevant,
    validate_component, ConstraintError, FocusValuesV, ValueNodes,
};
use crate::graph::{SRDFGraph, TripleV};
use crate::report::ValidationResult;
use crate::shacl::{Component, ComponentV};
use crate::term::{Term, TermV};

verus! {

/// The text of a term as it stands in a query and in diagnostics.
pub open spec fn term_text(t: TermV) -> Seq<char> {
    match t {
        TermV::Iri(s) => "<"@ + s + ">"@,
        TermV::BNode(s) => "_:"@ + s,
        TermV::Lit { lexical, datatype, lang } => "\""@ + lexical + "\""@ + match lang {
            Some(l) => "@"@ + l,
            None => match datatype {
                Some(d) => "^^<"@ + d + ">"@,
                None => Seq::empty(),
            },
        },
    }
}

/// The `ASK` query whose answer is whether `v` reaches `c` through
/// `rdf:type/rdfs:subClassOf*`.
pub open spec fn class_query_text(v: TermV, c: TermV) -> Seq<char> {
    "PREFIX rdf: <http://www.w3.org/1999/02/22-rdf-syntax-ns#>\nPREFIX rdfs: <http://www.w3.org/2000/01/rdf-schema#>\nASK { "@
        + term_text(v) + " rdf:type/rdfs:subClassOf* "@ + term_text(c) + " }"@
}

/// The text of a term as it stands in a query and in diagnostics.
pub fn show_term(t: &Term) -> (r: String)
    ensures
        r@ == term_text(t@),
{
    match t {
        Term::Iri(s) => {
            let mut r = "<".to_string();
            r.append(s.as_str());
            r.append(">");
            r
        },
        Term::BlankNode(s) => {
            let mut r = "_:".to_string();
            r.append(s.as_str());
            r
        },
        Term::Literal(l) => {
            let mut r = "\"".to_string();
            r.append(l.lexical_form.as_str());
            r.append("\"");
            match &l.lang {
                Some(tag) => {
                    r.append("@");
                    r.append(tag.as_str());
                },
                None => match &l.datatype {
                    Some(d) => {
                        r.append("^^<");
                        r.append(d.as_str());
                        r.append(">");
                    },
                    None => {},
                },
            }
            r
        },
    }
}

/// The `ASK` query that decides whether `value` is an instance of `class`.
pub fn class_query(value: &Term, class: &Term) -> (r: String)
    ensures
        r@ == class_query_text(value@, class@),
{
    let mut r = "PREFIX rdf: <http://www.w3.org/1999/02/22-rdf-syntax-ns#>\nPREFIX rdfs: <http://www.w3.org/2000/01/rdf-schema#>\nASK { ".to_string();
    let v = show_term(value);
    r.append(v.as_str());
    r.append(" rdf:type/rdfs:subClassOf* ");
    let c = show_term(class);
    r.append(c.as_str());
    r.append(" }");
    r
}

/// One flag per value node: whether it is an instance of `c` in `g`.
pub open spec fn native_facts(g: Seq<TripleV>, vn: Seq<FocusValuesV>, c: TermV) -> Seq<Seq<bool>> {
    Seq::new(
        vn.len(),
        |i: int| Seq::new(vn[i].values.len(), |j: int| instance_of(g, vn[i].values[j], c)),
    )
}

/// The class a component asks about; any term for the other kinds.
pub open spec fn class_of(c: ComponentV) -> TermV {
    match c {
        ComponentV::Class(t) => t,
        _ => TermV::Iri(Seq::empty()),
    }
}

/// The results of the native strategy.
pub open spec fn native_results(
    c: ComponentV,
    shape: TermV,
    g: Seq<TripleV>,
    vn: Seq<FocusValuesV>,
) -> Seq<crate::report::ResultV> {
    all_results(c, shape, vn, native_facts(g, vn, class_of(c)))
}

/// Class membership of every value node, decided by walking the graph.
pub fn class_facts_native(g: &SRDFGraph, vn: &ValueNodes, class: &Term) -> (r: Vec<Vec<bool>>)
    ensures
        facts_view(r@) == native_facts(g@, vn@, class@),
{
    let mut r: Vec<Vec<bool>> = Vec::new();
    let mut i: usize = 0;
    while i < vn.entries.len()
        invariant
            0 <= i <= vn.entries@.len(),
            r@.len() == i,
            forall|k: int| 0 <= k < i ==> #[trigger] facts_view(r@)[k] == native_facts(g@, vn@, class@)[k],
        decreases vn.entries.len() - i,
    {
        let e = &vn.entries[i];
        let ghost ev = vn@[i as int];
        assert(ev == e@);
        let mut flags: Vec<bool> = Vec::new();
        let mut j: usize = 0;
        while j < e.values.len()
            invariant
                0 <= j <= e.values@.len(),
                ev == e@,
                flags@.len() == j,
                forall|k: int| 0 <= k < j ==> flags@[k] == instance_of(g@, ev.values[k], class@),
            decreases e.values.len() - j,
        {
            let b = g.is_instance_of(&e.values[j], class);
            flags.push(b);
            j += 1;
        }
        let ghost before = facts_view(r@);
        r.push(flags);
        proof {
            assert(flags@ =~= native_facts(g@, vn@, class@)[i as int]);
            assert forall|k: int| 0 <= k < i + 1 implies #[trigger] facts_view(r@)[k] == native_facts(g@, vn@, class@)[k] by {
                if k < i {
                    assert(facts_view(r@)[k] == before[k]);
                }
            }
        }
        i += 1;
    }
    assert(facts_view(r@) =~= native_facts(g@, vn@, class@));
    r
}

/// The errors of a SPARQL endpoint store.
#[derive(Debug, PartialEq)]
pub enum SRDFSPARQLError {
    /// The endpoint could not be reached or did not answer; the message says why.
    Endpoint(String),
}

/// A store that answers queries; a SPARQL endpoint, for instance.
pub trait QuerySRDF {
    /// Answers an `ASK` query, or says why it could not.
    fn query_ask(&self, query: &String) -> Result<bool, String>;
}

/// Class membership of every value node, asked of `store` one `ASK` query
/// (`class_query`) at a time. A failed query is a `Query` error.
pub fn class_facts_sparql<S: QuerySRDF>(store: &S, vn: &ValueNodes, class: &Term) -> (r: Result<
    Vec<Vec<bool>>,
    ConstraintError,
>)
    ensures
        r matches Ok(f) ==> facts_aligned(vn@, facts_view(f@)),
        r matches Err(e) ==> e is Query,
        (forall|i: int| 0 <= i < vn@.len() ==> #[trigger] vn@[i].values.len() == 0) ==> r is Ok,
{
    let mut r: Vec<Vec<bool>> = Vec::new();
    let mut i: usize = 0;
    while i < vn.entries.len()
        invariant
            0 <= i <= vn.entries@.len(),
            r@.len() == i,
            forall|k: int| 0 <= k < i ==> #[trigger] r@[k]@.len() == vn@[k].values.len(),
        decreases vn.entries.len() - i,
    {
        let e = &vn.entries[i];
        assert(vn@[i as int] == e@);
        let mut flags: Vec<bool> = Vec::new();
        let mut j: usize = 0;
        while j < e.values.len()
            invariant
                0 <= j <= e.values@.len(),
                flags@.len() == j,
                0 <= i < vn@.len(),
                vn@[i as int] == e@,
            decreases e.values.len() - j,
        {
            let query = class_query(&e.values[j], class);
            match store.query_ask(&query) {
                Ok(b) => flags.push(b),
                Err(msg) => {
                    assert(vn@[i as int].values.len() > 0);
                    return Err(ConstraintError::Query(msg));
                },
            }
            j += 1;
        }
        r.push(flags);
        i += 1;
    }
    assert(facts_aligned(vn@, facts_view(r@)));
    Ok(r)
}

/// Judges a component with the native strategy.
pub fn validate_native(c: &Component, shape: &Term, g: &SRDFGraph, vn: &ValueNodes) -> (r: Result<
    Vec<ValidationResult>,
    ConstraintError,
>)
    ensures
        c@ is LessThan ==> is_not_implemented(r, "LessThan"@),
        !(c@ is LessThan) ==> is_ok_with(r, native_results(c@, shape@, g@, vn@)),
{
    match c {
        Component::Class(class) => {
            let facts = class_facts_native(g, vn, class);
            validate_component(c, shape, vn, &facts)
        },
        _ => {
            let facts: Vec<Vec<bool>> = Vec::new();
            let r = validate_component(c, shape, vn, &facts);
            proof {
                lemma_facts_irrelevant(
                    c@,
                    shape@,
                    vn@,
                    facts_view(facts@),
                    native_facts(g@, vn@, class_of(c@)),
                    vn@.len() as int,
                );
            }
            r
        },
    }
}

/// Judges a component with the query strategy. Whatever the store answers,
/// the results are those that judging gives on some class-membership flags,
/// one per value node; only `Class` asks the store.
pub fn validate_sparql<S: QuerySRDF>(
    c: &Component,
    shape: &Term,
    store: &S,
    vn: &ValueNodes,
) -> (r: Result<Vec<ValidationResult>, ConstraintError>)
    ensures
        c@ is LessThan ==> is_not_implemented(r, "LessThan"@),
        !(c@ is LessThan) && !(c@ is Class) ==> is_ok_with(r, all_results(c@, shape@, vn@, Seq::empty())),
        c@ is Class ==> (r is Ok ==> exists|f: Seq<Seq<bool>>|
            facts_aligned(vn@, f) && is_ok_with(r, #[trigger] all_results(c@, shape@, vn@, f))),
        c@ is Class ==> (r matches Err(e) ==> e is Query),
        c@ is Class && (forall|i: int| 0 <= i < vn@.len() ==> #[trigger] vn@[i].values.len() == 0)
            ==> r is Ok,
{
    match c {
        Component::Class(class) => {
            let facts = class_facts_sparql(store, vn, class)?;
            let r = validate_component(c, shape, vn, &facts);
            assert(facts_aligned(vn@, facts_view(facts@)) && is_ok_with(r, all_results(c@, shape@, vn@, facts_view(facts@))));
            r
        },
        _ => {
            let facts: Vec<Vec<bool>> = Vec::new();
            let r = validate_component(c, shape, vn, &facts);
            proof {
                lemma_facts_irrelevant(c@, shape@, vn@, facts_view(facts@), Seq::empty(), vn@.len() as int);
            }
            r
        },
    }
}

/// The two strategies agree. When a store answers each generated class
/// query as its pattern `rdf:type/rdfs:subClassOf*` holds on the data graph
/// `g`, judging with its answers gives the same results as the native
/// strategy: the same conformance and the same violations.
pub proof fn lemma_strategies_agree(
    c: ComponentV,
    shape: TermV,
    g: Seq<TripleV>,
    vn: Seq<FocusValuesV>,
    answers: Seq<Seq<bool>>,
)
    requires
        facts_aligned(vn, answers),
        c is Class ==> forall|i: int, j: int|
            0 <= i < vn.len() && 0 <= j < vn[i].values.len() ==> #[trigger] answers[i][j]
                == instance_of(g, vn[i].values[j], class_of(c)),
    ensures
        all_results(c, shape, vn, answers) == native_results(c, shape, g, vn),
{
    let native = native_facts(g, vn, class_of(c));
    if c is Class {
        assert forall|i: int| 0 <= i < vn.len() implies #[trigger] answers[i] =~= native[i] by {
            assert(answers[i].len() == vn[i].values.len());
        }
        assert(answers =~= native);
    } else {
        lemma_facts_irrelevant(c, shape, vn, answers, native, vn.len() as int);
    }
}

} // verus!
