use shacl_validation::constraints::{
    validate_component, ConstraintError, FocusValues, UniqueLang, ValueNodes,
};
use shacl_validation::graph::SRDFGraph;
use shacl_validation::report::{ComponentKind, Severity, ValidationReport, ValidationResult};
use shacl_validation::shacl::{Component, NodeKind, SHACLPath};
use shacl_validation::strategy::{
    class_query, show_term, validate_native, validate_sparql, QuerySRDF,
};
use shacl_validation::term::{Literal, Term};

const XSD_INTEGER: &str = "http://www.w3.org/2001/XMLSchema#integer";
const RDF_TYPE: &str = "http://www.w3.org/1999/02/22-rdf-syntax-ns#type";
const SUBCLASS: &str = "http://www.w3.org/2000/01/rdf-schema#subClassOf";

fn ex(local: &str) -> Term {
    Term::iri(&format!("http://example.org/{local}"))
}

fn lang(s: &str, tag: &str) -> Term {
    Term::Literal(Literal {
        lexical_form: s.to_string(),
        datatype: None,
        lang: Some(tag.to_string()),
    })
}

fn typed(s: &str, dt: &str) -> Term {
    Term::Literal(Literal {
        lexical_form: s.to_string(),
        datatype: Some(dt.to_string()),
        lang: None,
    })
}

fn one_focus(values: Vec<Term>) -> ValueNodes {
    ValueNodes { entries: vec![FocusValues { focus: ex("x"), values }] }
}

fn no_facts() -> Vec<Vec<bool>> {
    Vec::new()
}

/// A store that answers each query from a fixed table.
struct TableStore {
    answers: Vec<(String, bool)>,
}

impl QuerySRDF for TableStore {
    fn query_ask(&self, query: &String) -> Result<bool, String> {
        for (q, a) in &self.answers {
            if q == query {
                return Ok(*a);
            }
        }
        Err(format!("unexpected query {query}"))
    }
}

struct FailingStore;

impl QuerySRDF for FailingStore {
    fn query_ask(&self, _query: &String) -> Result<bool, String> {
        Err("endpoint down".to_string())
    }
}

#[test]
fn min_count_two_with_one_value_gives_one_violation() {
    let shape = ex("S");
    let r = validate_component(&Component::MinCount(2), &shape, &one_focus(vec![ex("a")]), &no_facts())
        .unwrap();
    assert_eq!(r.len(), 1);
    assert_eq!(r[0].focus_node, ex("x"));
    assert_eq!(r[0].value_node, None);
    assert_eq!(r[0].source_component, ComponentKind::MinCount);
    assert_eq!(r[0].source_shape, shape);
    assert_eq!(r[0].severity, Severity::Violation);
    let two = validate_component(
        &Component::MinCount(2),
        &shape,
        &one_focus(vec![ex("a"), ex("b")]),
        &no_facts(),
    )
    .unwrap();
    assert!(two.is_empty());
    let three = validate_component(
        &Component::MinCount(2),
        &shape,
        &one_focus(vec![ex("a"), ex("b"), ex("c")]),
        &no_facts(),
    )
    .unwrap();
    assert!(three.is_empty());
}

#[test]
fn max_count_bounds_the_values() {
    let shape = ex("S");
    let over = validate_component(
        &Component::MaxCount(1),
        &shape,
        &one_focus(vec![ex("a"), ex("b")]),
        &no_facts(),
    )
    .unwrap();
    assert_eq!(over.len(), 1);
    let within =
        validate_component(&Component::MaxCount(1), &shape, &one_focus(vec![ex("a")]), &no_facts())
            .unwrap();
    assert!(within.is_empty());
}

#[test]
fn datatype_rejects_plain_string_for_integer() {
    let shape = ex("S");
    let dt = Component::Datatype(XSD_INTEGER.to_string());
    let r = validate_component(&dt, &shape, &one_focus(vec![Term::plain_literal("abc")]), &no_facts())
        .unwrap();
    assert_eq!(r.len(), 1);
    assert_eq!(r[0].value_node, Some(Term::plain_literal("abc")));
    let ok = validate_component(&dt, &shape, &one_focus(vec![typed("abc", XSD_INTEGER)]), &no_facts())
        .unwrap();
    assert!(ok.is_empty());
    let iri = validate_component(&dt, &shape, &one_focus(vec![ex("a")]), &no_facts()).unwrap();
    assert_eq!(iri.len(), 1);
}

#[test]
fn class_on_plain_literal_is_always_a_violation() {
    let shape = ex("S");
    let class = Component::Class(ex("Person"));
    let vn = one_focus(vec![Term::plain_literal("Alice")]);
    // Even when the membership flag claims the literal is an instance.
    let r = validate_component(&class, &shape, &vn, &vec![vec![true]]).unwrap();
    assert_eq!(r.len(), 1);
    assert_eq!(r[0].value_node, Some(Term::plain_literal("Alice")));
    let g = SRDFGraph::new();
    let native = validate_native(&class, &shape, &g, &vn).unwrap();
    assert_eq!(native.len(), 1);
    let other = validate_native(&Component::Class(ex("Thing")), &shape, &g, &vn).unwrap();
    assert_eq!(other.len(), 1);
}

#[test]
fn node_kind_compares_the_kind_of_each_value() {
    let shape = ex("S");
    let vn = one_focus(vec![ex("a"), Term::plain_literal("b"), Term::BlankNode("c".to_string())]);
    let r = validate_component(&Component::NodeKind(NodeKind::Iri), &shape, &vn, &no_facts()).unwrap();
    assert_eq!(r.len(), 2);
    assert_eq!(r[0].value_node, Some(Term::plain_literal("b")));
    assert_eq!(r[1].value_node, Some(Term::BlankNode("c".to_string())));
}

#[test]
fn has_value_needs_one_equal_value() {
    let shape = ex("S");
    let missing = validate_component(
        &Component::HasValue(ex("b")),
        &shape,
        &one_focus(vec![ex("a")]),
        &no_facts(),
    )
    .unwrap();
    assert_eq!(missing.len(), 1);
    assert_eq!(missing[0].value_node, None);
    let present = validate_component(
        &Component::HasValue(ex("b")),
        &shape,
        &one_focus(vec![ex("a"), ex("b")]),
        &no_facts(),
    )
    .unwrap();
    assert!(present.is_empty());
}

#[test]
fn unique_lang_flags_the_second_english_value() {
    let shape = ex("S");
    let vn = one_focus(vec![lang("hi", "en"), lang("bye", "en"), lang("x", "fr")]);
    let r = UniqueLang::new(true).evaluate(&shape, &vn);
    assert_eq!(r.len(), 1);
    assert_eq!(r[0].value_node, Some(lang("bye", "en")));
    let distinct = one_focus(vec![lang("hi", "en"), lang("x", "fr")]);
    assert!(UniqueLang::new(true).evaluate(&shape, &distinct).is_empty());
    assert!(UniqueLang::new(false).evaluate(&shape, &vn).is_empty());
    let untagged = one_focus(vec![Term::plain_literal("a"), Term::plain_literal("a")]);
    assert!(UniqueLang::new(true).evaluate(&shape, &untagged).is_empty());
}

#[test]
fn in_reports_the_value_outside_the_set() {
    let shape = ex("S");
    let set = vec![typed("1", XSD_INTEGER), typed("2", XSD_INTEGER), typed("3", XSD_INTEGER)];
    let vn = one_focus(vec![typed("1", XSD_INTEGER), typed("2", XSD_INTEGER), typed("4", XSD_INTEGER)]);
    let r = validate_component(&Component::In(set), &shape, &vn, &no_facts()).unwrap();
    assert_eq!(r.len(), 1);
    assert_eq!(r[0].value_node, Some(typed("4", XSD_INTEGER)));
    assert_eq!(r[0].focus_node, ex("x"));
}

#[test]
fn less_than_is_not_implemented_under_both_strategies() {
    let shape = ex("S");
    let lt = Component::LessThan(SHACLPath::Predicate("http://example.org/p".to_string()));
    let vn = one_focus(vec![ex("a")]);
    let g = SRDFGraph::new();
    assert_eq!(
        validate_native(&lt, &shape, &g, &vn).unwrap_err(),
        ConstraintError::NotImplemented("LessThan".to_string())
    );
    let store = TableStore { answers: Vec::new() };
    assert_eq!(
        validate_sparql(&lt, &shape, &store, &vn).unwrap_err(),
        ConstraintError::NotImplemented("LessThan".to_string())
    );
    let empty = ValueNodes { entries: Vec::new() };
    assert!(validate_native(&lt, &shape, &g, &empty).is_err());
}

#[test]
fn report_conformance_flips_once_and_stays() {
    let mut report = ValidationReport::new();
    assert!(report.conforms());
    report.add_result(ValidationResult::new(&ex("x"), None, &ex("S"), ComponentKind::MinCount));
    assert!(!report.conforms());
    report.add_results(vec![ValidationResult::new(
        &ex("y"),
        Some(&ex("v")),
        &ex("S"),
        ComponentKind::In,
    )]);
    assert!(!report.conforms());
    assert_eq!(report.results().len(), 2);
    assert!(ValidationReport::from_results(Vec::new()).conforms());
}

fn class_graph() -> SRDFGraph {
    let mut g = SRDFGraph::new();
    g.add_triple(ex("alice"), RDF_TYPE.to_string(), ex("Student"));
    g.add_triple(ex("Student"), SUBCLASS.to_string(), ex("Scholar"));
    g.add_triple(ex("Scholar"), SUBCLASS.to_string(), ex("Person"));
    g.add_triple(ex("Person"), SUBCLASS.to_string(), ex("Student"));
    g.add_triple(ex("rock"), RDF_TYPE.to_string(), ex("Mineral"));
    g
}

#[test]
fn instance_of_follows_subclass_chains_and_cycles() {
    let g = class_graph();
    assert!(g.is_instance_of(&ex("alice"), &ex("Student")));
    assert!(g.is_instance_of(&ex("alice"), &ex("Person")));
    assert!(!g.is_instance_of(&ex("rock"), &ex("Person")));
    assert!(!g.is_instance_of(&ex("bob"), &ex("Person")));
}

#[test]
fn native_and_query_strategies_agree_on_class() {
    let g = class_graph();
    let shape = ex("S");
    let class = Component::Class(ex("Person"));
    let vn = ValueNodes {
        entries: vec![
            FocusValues { focus: ex("x"), values: vec![ex("alice"), ex("rock")] },
            FocusValues { focus: ex("y"), values: vec![Term::plain_literal("z")] },
        ],
    };
    let answers = vec![
        (class_query(&ex("alice"), &ex("Person")), true),
        (class_query(&ex("rock"), &ex("Person")), false),
        (class_query(&Term::plain_literal("z"), &ex("Person")), false),
    ];
    let store = TableStore { answers };
    let native = validate_native(&class, &shape, &g, &vn).unwrap();
    let sparql = validate_sparql(&class, &shape, &store, &vn).unwrap();
    let pairs = |rs: &Vec<ValidationResult>| {
        rs.iter().map(|r| (r.focus_node.clone(), r.value_node.clone())).collect::<Vec<_>>()
    };
    assert_eq!(pairs(&native), pairs(&sparql));
    assert_eq!(
        pairs(&native),
        vec![(ex("x"), Some(ex("rock"))), (ex("y"), Some(Term::plain_literal("z")))]
    );
}

#[test]
fn query_failure_is_a_query_error() {
    let class = Component::Class(ex("Person"));
    let vn = one_focus(vec![ex("alice")]);
    match validate_sparql(&class, &ex("S"), &FailingStore, &vn) {
        Err(ConstraintError::Query(m)) => assert_eq!(m, "endpoint down"),
        other => panic!("unexpected {other:?}"),
    }
}

#[test]
fn class_query_text_is_exact() {
    let q = class_query(&ex("alice"), &ex("Person"));
    assert_eq!(
        q,
        "PREFIX rdf: <http://www.w3.org/1999/02/22-rdf-syntax-ns#>\nPREFIX rdfs: <http://www.w3.org/2000/01/rdf-schema#>\nASK { <http://example.org/alice> rdf:type/rdfs:subClassOf* <http://example.org/Person> }"
    );
    assert_eq!(show_term(&lang("hi", "en")), "\"hi\"@en");
    assert_eq!(show_term(&typed("1", XSD_INTEGER)), format!("\"1\"^^<{XSD_INTEGER}>"));
    assert_eq!(show_term(&Term::BlankNode("b0".to_string())), "_:b0");
}

#[test]
fn datatype_uses_the_implied_string_types() {
    let shape = ex("S");
    let xsd_string = Component::Datatype("http://www.w3.org/2001/XMLSchema#string".to_string());
    let lang_string =
        Component::Datatype("http://www.w3.org/1999/02/22-rdf-syntax-ns#langString".to_string());
    let plain = one_focus(vec![Term::plain_literal("abc")]);
    let tagged = one_focus(vec![lang("hi", "en")]);
    assert!(validate_component(&xsd_string, &shape, &plain, &no_facts()).unwrap().is_empty());
    assert_eq!(validate_component(&xsd_string, &shape, &tagged, &no_facts()).unwrap().len(), 1);
    assert!(validate_component(&lang_string, &shape, &tagged, &no_facts()).unwrap().is_empty());
    assert_eq!(validate_component(&lang_string, &shape, &plain, &no_facts()).unwrap().len(), 1);
}

#[test]
fn class_query_without_value_nodes_asks_nothing() {
    let class = Component::Class(ex("Person"));
    let vn = ValueNodes {
        entries: vec![FocusValues { focus: ex("x"), values: Vec::new() }],
    };
    assert!(validate_sparql(&class, &ex("S"), &FailingStore, &vn).unwrap().is_empty());
}
