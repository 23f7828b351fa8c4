use shacl_validation::graph::SRDFGraph;
use shacl_validation::prefixmap::{PrefixMap, PrefixMapError};
use shacl_validation::term::{Literal, Term};

const RDF_TYPE: &str = "http://www.w3.org/1999/02/22-rdf-syntax-ns#type";

fn ex(local: &str) -> Term {
    Term::iri(&format!("http://example.org/{local}"))
}

fn p(local: &str) -> String {
    format!("http://example.org/{local}")
}

fn sample() -> SRDFGraph {
    let mut g = SRDFGraph::new();
    g.add_triple(ex("x"), p("p"), ex("a"));
    g.add_triple(ex("x"), p("p"), ex("b"));
    g.add_triple(ex("x"), p("q"), ex("a"));
    g.add_triple(ex("y"), p("p"), ex("a"));
    g.add_triple(ex("x"), p("p"), ex("a"));
    g
}

#[test]
fn adding_a_triple_twice_keeps_one() {
    let g = sample();
    assert_eq!(g.len(), 4);
}

#[test]
fn lookups_by_pattern() {
    let g = sample();
    assert_eq!(g.objects_for_subject_predicate(&ex("x"), &p("p")), vec![ex("a"), ex("b")]);
    assert_eq!(g.subjects_with_predicate_object(&p("p"), &ex("a")), vec![ex("x"), ex("y")]);
    assert_eq!(g.triples_with_predicate(&p("q")).len(), 1);
    assert_eq!(g.predicates_for_subject(&ex("x")), vec![p("p"), p("q")]);
    assert_eq!(g.predicates_for_object(&ex("a")), vec![p("p"), p("q")]);
}

#[test]
fn arcs_group_terms_by_predicate() {
    let g = sample();
    let out = g.outgoing_arcs(&ex("x"));
    assert_eq!(out, vec![(p("p"), vec![ex("a"), ex("b")]), (p("q"), vec![ex("a")])]);
    let inc = g.incoming_arcs(&ex("a"));
    assert_eq!(inc, vec![(p("p"), vec![ex("x"), ex("y")]), (p("q"), vec![ex("x")])]);
}

#[test]
fn removing_a_triple_keeps_the_others() {
    let mut g = sample();
    g.remove_triple(&ex("x"), &p("p"), &ex("a"));
    assert_eq!(g.len(), 3);
    assert!(!g.contains_triple(&ex("x"), &p("p"), &ex("a")));
    assert!(g.contains_triple(&ex("y"), &p("p"), &ex("a")));
    g.remove_triple(&ex("z"), &p("p"), &ex("a"));
    assert_eq!(g.len(), 3);
}

#[test]
fn parsed_strings_equal_plain_literals() {
    let data = "<http://example.org/x> <http://example.org/name> \"Alice\", \"Al\"@en .";
    let g = SRDFGraph::from_str(data, None).unwrap();
    let names = g.objects_for_subject_predicate(&ex("x"), &p("name"));
    assert!(names.contains(&Term::plain_literal("Alice")));
    assert!(names.contains(&Term::Literal(Literal {
        lexical_form: "Al".to_string(),
        datatype: None,
        lang: Some("en".to_string()),
    })));
    let typed = Term::Literal(Literal {
        lexical_form: "a".to_string(),
        datatype: Some("http://www.w3.org/2001/XMLSchema#string".to_string()),
        lang: None,
    });
    assert_eq!(typed.normalize(), Term::plain_literal("a"));
}

#[test]
fn types_are_found_by_subject_lookup() {
    let mut g = SRDFGraph::new();
    g.add_triple(ex("alice"), RDF_TYPE.to_string(), ex("Person"));
    assert!(g.is_instance_of(&ex("alice"), &ex("Person")));
    assert!(!g.is_instance_of(&ex("Person"), &ex("alice")));
}

#[test]
fn arcs_from_a_list_split_listed_and_other_predicates() {
    let g = sample();
    let (listed, rest) = g.outgoing_arcs_from_list(&ex("x"), &vec![p("q"), p("r")]);
    assert_eq!(listed, vec![(p("q"), vec![ex("a")])]);
    assert_eq!(rest, vec![p("p"), p("p")]);
}

#[test]
fn typing_a_node_adds_one_triple() {
    let mut g = SRDFGraph::new();
    g.add_type(ex("alice"), ex("Person"));
    g.add_type(ex("alice"), ex("Person"));
    assert_eq!(g.len(), 1);
    assert!(g.contains_triple(&ex("alice"), &RDF_TYPE.to_string(), &ex("Person")));
}

#[test]
fn prefixes_resolve_local_names() {
    let mut pm = PrefixMap::new();
    pm.insert("ex", "http://example.org/");
    pm.insert("sh", "http://www.w3.org/ns/shacl#");
    pm.insert("ex", "http://example.com/");
    assert_eq!(pm.find("ex"), Some("http://example.com/".to_string()));
    assert_eq!(pm.resolve_prefix_local("sh", "path").unwrap(), "http://www.w3.org/ns/shacl#path");
    assert_eq!(
        pm.resolve_prefix_local("foaf", "name").unwrap_err(),
        PrefixMapError::PrefixNotFound("foaf".to_string())
    );
}

#[test]
fn turtle_prefixes_are_kept() {
    let g = SRDFGraph::from_str("@prefix ex: <http://example.org/> .\nex:x ex:p ex:y .", None).unwrap();
    assert_eq!(g.resolve_prefix_local("ex", "y").unwrap(), "http://example.org/y");
    assert!(g.resolve_prefix_local("rdf", "type").is_err());
    assert_eq!(g.prefixmap().find("ex"), Some("http://example.org/".to_string()));
}

fn one() -> Term {
    Term::Literal(Literal {
        lexical_form: "1".to_string(),
        datatype: Some("http://www.w3.org/2001/XMLSchema#integer".to_string()),
        lang: None,
    })
}

#[test]
fn parse_get_predicates() {
    let s = r#"PREFIX : <http://example.org/>
            PREFIX schema: <https://schema.org/>

            :alice schema:name "Alice" ;
                   schema:knows :bob, :carol ;
                   :age  23 .
         "#;
    let parsed_graph = SRDFGraph::from_str(s, None).unwrap();
    let alice = Term::iri("http://example.org/alice");
    let knows = "https://schema.org/knows".to_string();
    let bag_preds = parsed_graph.predicates_for_subject(&alice);
    assert_eq!(bag_preds.contains(&knows), true);
    let bob = Term::iri("http://example.org/bob");
    let alice_knows = parsed_graph.objects_for_subject_predicate(&alice, &knows);
    assert_eq!(alice_knows.contains(&bob), true);
}

#[test]
fn test_outgoing_arcs() {
    let s = r#"prefix : <http://example.org/>
        prefix rdf: <http://www.w3.org/1999/02/22-rdf-syntax-ns#>
        
        :x :p [ :p 1 ].
        "#;
    let graph = SRDFGraph::from_str(s, None).unwrap();
    let x = Term::iri("http://example.org/x");
    let p = "http://example.org/p".to_string();
    let terms = graph.objects_for_subject_predicate(&x, &p);
    let term = terms.iter().next().unwrap().clone();
    let outgoing = graph.outgoing_arcs(&term);
    let found = outgoing.iter().find(|(q, _)| *q == p).map(|(_, ts)| ts.clone());
    assert_eq!(found, Some(vec![one()]))
}

#[test]
fn test_outgoing_arcs_bnode() {
    let s = r#"prefix : <http://example.org/>
        prefix rdf: <http://www.w3.org/1999/02/22-rdf-syntax-ns#>
        
        :x :p [ :p 1 ].
        "#;
    let graph = SRDFGraph::from_str(s, None).unwrap();
    let x = Term::iri("http://example.org/x");
    let p = "http://example.org/p".to_string();
    let terms = graph.objects_for_subject_predicate(&x, &p);
    let term = terms.iter().next().unwrap().clone();
    let id = match term {
        Term::BlankNode(id) => id,
        other => panic!("expected a blank node, found {other:?}"),
    };
    let subject = Term::BlankNode(id);
    let outgoing = graph.outgoing_arcs(&subject);
    let found = outgoing.iter().find(|(q, _)| *q == p).map(|(_, ts)| ts.clone());
    assert_eq!(found, Some(vec![one()]))
}

#[test]
fn graphs_from_triples_keep_first_occurrences() {
    use_triples();
}

fn use_triples() {
    let t = |s: &str, o: &str| shacl_validation::graph::Triple {
        subject: ex(s),
        predicate: p("p"),
        object: ex(o),
    };
    let g = SRDFGraph::from_triples(vec![t("x", "a"), t("y", "b"), t("x", "a")]);
    assert_eq!(g.len(), 2);
    assert_eq!(g.subjects_with_predicate_object(&p("p"), &ex("a")), vec![ex("x")]);
}

#[test]
fn shown_terms_carry_their_text() {
    let g = SRDFGraph::new();
    assert!(g.show_literal(&Term::plain_literal("a")).contains("\"a\""));
    assert!(g.show_blanknode("b0").contains("_:b0"));
}
