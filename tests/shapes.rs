use shacl_validation::compiler::CompiledSchema;
use shacl_validation::constraints::ConstraintError;
use shacl_validation::engine::{validate, validate_with_store, ErrorPolicy};
use shacl_validation::graph::SRDFGraph;
use shacl_validation::parser::{parse_numeral, ShaclParser, ShaclParserError};
use shacl_validation::report::ComponentKind;
use shacl_validation::shacl::{Component, NodeKind, ShaclShape, Target};
use shacl_validation::strategy::QuerySRDF;
use shacl_validation::term::{Literal, Term};
use shacl_validation::turtle::SRDFGraphError;

const RDF_TYPE: &str = "http://www.w3.org/1999/02/22-rdf-syntax-ns#type";
const SH: &str = "http://www.w3.org/ns/shacl#";
const XSD_INTEGER: &str = "http://www.w3.org/2001/XMLSchema#integer";

fn ex(local: &str) -> Term {
    Term::iri(&format!("http://example.org/{local}"))
}

fn sh(local: &str) -> String {
    format!("{SH}{local}")
}

fn integer(n: &str) -> Term {
    Term::Literal(Literal {
        lexical_form: n.to_string(),
        datatype: Some(XSD_INTEGER.to_string()),
        lang: None,
    })
}

fn person_shapes() -> SRDFGraph {
    let mut g = SRDFGraph::new();
    g.add_triple(ex("PersonShape"), RDF_TYPE.to_string(), Term::iri(&sh("NodeShape")));
    g.add_triple(ex("PersonShape"), sh("targetClass"), ex("Person"));
    g.add_triple(ex("PersonShape"), sh("property"), ex("NameShape"));
    g.add_triple(ex("NameShape"), sh("path"), ex("name"));
    g.add_triple(ex("NameShape"), sh("minCount"), integer("1"));
    g.add_triple(ex("NameShape"), sh("maxCount"), integer("1"));
    g
}

fn people() -> SRDFGraph {
    let mut g = SRDFGraph::new();
    g.add_triple(ex("alice"), RDF_TYPE.to_string(), ex("Person"));
    g.add_triple(ex("alice"), "http://example.org/name".to_string(), Term::plain_literal("Alice"));
    g.add_triple(ex("bob"), RDF_TYPE.to_string(), ex("Person"));
    g
}

struct NoStore;

impl QuerySRDF for NoStore {
    fn query_ask(&self, _query: &String) -> Result<bool, String> {
        Err("no store".to_string())
    }
}

#[test]
fn parser_finds_node_and_property_shapes() {
    let mut parser = ShaclParser::new(person_shapes());
    let schema = parser.parse().unwrap();
    let shapes = schema.shapes();
    assert_eq!(shapes.len(), 2);
    let mut saw_node = false;
    let mut saw_property = false;
    for s in shapes {
        match s {
            ShaclShape::NodeShape(n) => {
                saw_node = true;
                assert_eq!(n.id, ex("PersonShape"));
                assert_eq!(n.property_shapes, vec![ex("NameShape")]);
                assert!(matches!(&n.targets[..], [Target::TargetClass(c)] if *c == ex("Person")));
            },
            ShaclShape::PropertyShape(p) => {
                saw_property = true;
                assert_eq!(p.id, ex("NameShape"));
                assert_eq!(p.components.len(), 2);
                assert!(matches!(p.components[0], Component::MinCount(1)));
                assert!(matches!(p.components[1], Component::MaxCount(1)));
            },
        }
    }
    assert!(saw_node && saw_property);
}

#[test]
fn validation_reports_missing_name() {
    let mut parser = ShaclParser::new(person_shapes());
    let schema = parser.parse().unwrap();
    let compiled = CompiledSchema::compile(&schema);
    let report = validate(&compiled, &people(), ErrorPolicy::Strict).unwrap();
    assert!(!report.conforms());
    assert_eq!(report.results().len(), 1);
    assert_eq!(report.results()[0].focus_node, ex("bob"));
    assert_eq!(report.results()[0].source_component, ComponentKind::MinCount);
    assert_eq!(report.results()[0].source_shape, ex("NameShape"));
    let by_store = validate_with_store(&compiled, &people(), &NoStore, ErrorPolicy::Strict).unwrap();
    assert_eq!(by_store.results().len(), 1);
}

#[test]
fn nested_shapes_run_on_the_parent_focus_nodes() {
    let mut g = person_shapes();
    g.add_triple(ex("NameShape"), sh("targetNode"), ex("carol"));
    let compiled = CompiledSchema::compile(&ShaclParser::new(g).parse().unwrap());
    let report = validate(&compiled, &people(), ErrorPolicy::Strict).unwrap();
    let mut focus: Vec<Term> = report.results().iter().map(|r| r.focus_node.clone()).collect();
    focus.sort_by_key(|t| format!("{t:?}"));
    assert_eq!(focus, vec![ex("bob"), ex("carol")]);
}

#[test]
fn cyclic_property_shapes_compile_once_each() {
    let mut g = SRDFGraph::new();
    g.add_triple(ex("A"), sh("path"), ex("p"));
    g.add_triple(ex("A"), sh("property"), ex("B"));
    g.add_triple(ex("B"), sh("path"), ex("q"));
    g.add_triple(ex("B"), sh("property"), ex("A"));
    let schema = ShaclParser::new(g).parse().unwrap();
    let compiled = CompiledSchema::compile(&schema);
    assert_eq!(compiled.shapes().len(), 2);
    assert!(compiled.get(&ex("A")).is_some());
    assert!(compiled.get(&ex("B")).is_some());
    assert!(compiled.get(&ex("C")).is_none());
    assert_eq!(compiled.get(&ex("A")).unwrap().property_shapes, vec![ex("B")]);
}

#[test]
fn duplicate_components_are_compiled_once() {
    let mut g = SRDFGraph::new();
    g.add_triple(ex("A"), sh("path"), ex("p"));
    g.add_triple(ex("B"), sh("property"), ex("A"));
    g.add_triple(ex("A"), sh("minCount"), integer("1"));
    g.add_triple(ex("A"), sh("minCount"), Term::plain_literal("1"));
    let schema = ShaclParser::new(g).parse().unwrap();
    let compiled = CompiledSchema::compile(&schema);
    let a = compiled.get(&ex("A")).unwrap();
    assert_eq!(a.components.len(), 1);
}

#[test]
fn property_shape_without_path_is_an_error() {
    let mut g = SRDFGraph::new();
    g.add_triple(ex("S"), sh("property"), ex("P"));
    match ShaclParser::new(g).parse() {
        Err(ShaclParserError::MissingPath(t)) => assert_eq!(t, ex("P")),
        other => panic!("unexpected {other:?}"),
    }
}

#[test]
fn literal_path_is_malformed() {
    let mut g = SRDFGraph::new();
    g.add_triple(ex("S"), sh("property"), ex("P"));
    g.add_triple(ex("P"), sh("path"), Term::plain_literal("name"));
    assert!(matches!(ShaclParser::new(g).parse(), Err(ShaclParserError::MalformedPath(_))));
}

#[test]
fn node_kind_values_are_checked() {
    let mut g = SRDFGraph::new();
    g.add_triple(ex("S"), sh("property"), ex("P"));
    g.add_triple(ex("P"), sh("path"), ex("p"));
    g.add_triple(ex("P"), sh("nodeKind"), Term::iri(&sh("Literal")));
    let schema = ShaclParser::new(g).parse().unwrap();
    let found = schema.shapes().iter().any(|s| match s {
        ShaclShape::PropertyShape(p) => {
            matches!(p.components[..], [Component::NodeKind(NodeKind::Literal)])
        },
        _ => false,
    });
    assert!(found);

    let mut bad = SRDFGraph::new();
    bad.add_triple(ex("S"), sh("property"), ex("P"));
    bad.add_triple(ex("P"), sh("path"), ex("p"));
    bad.add_triple(ex("P"), sh("nodeKind"), ex("Whatever"));
    assert!(matches!(ShaclParser::new(bad).parse(), Err(ShaclParserError::UnknownNodeKind(_))));

    let mut lit = SRDFGraph::new();
    lit.add_triple(ex("S"), sh("property"), ex("P"));
    lit.add_triple(ex("P"), sh("path"), ex("p"));
    lit.add_triple(ex("P"), sh("nodeKind"), Term::plain_literal("IRI"));
    assert!(matches!(ShaclParser::new(lit).parse(), Err(ShaclParserError::ExpectedNodeKind(_))));
}

#[test]
fn counts_must_be_numerals() {
    let mut g = SRDFGraph::new();
    g.add_triple(ex("S"), sh("property"), ex("P"));
    g.add_triple(ex("P"), sh("path"), ex("p"));
    g.add_triple(ex("P"), sh("minCount"), Term::plain_literal("two"));
    assert!(matches!(ShaclParser::new(g).parse(), Err(ShaclParserError::ExpectedInteger(_))));
    assert_eq!(parse_numeral("0"), Some(0));
    assert_eq!(parse_numeral("42"), Some(42));
    assert_eq!(parse_numeral("18446744073709551615"), Some(u64::MAX));
    assert_eq!(parse_numeral("18446744073709551616"), None);
    assert_eq!(parse_numeral(""), None);
    assert_eq!(parse_numeral("-1"), None);
}

#[test]
fn strict_and_best_effort_policies_on_less_than() {
    let mut g = SRDFGraph::new();
    g.add_triple(ex("S"), sh("property"), ex("P"));
    g.add_triple(ex("P"), sh("path"), ex("p"));
    g.add_triple(ex("P"), sh("targetNode"), ex("x"));
    g.add_triple(ex("P"), sh("lessThan"), ex("q"));
    g.add_triple(ex("P"), sh("minCount"), integer("1"));
    let compiled = CompiledSchema::compile(&ShaclParser::new(g).parse().unwrap());
    let data = SRDFGraph::new();
    assert_eq!(
        validate(&compiled, &data, ErrorPolicy::Strict).unwrap_err(),
        ConstraintError::NotImplemented("LessThan".to_string())
    );
    let report = validate(&compiled, &data, ErrorPolicy::BestEffort).unwrap();
    assert_eq!(report.results().len(), 1);
    assert_eq!(report.diagnostics().len(), 1);
    assert!(validate_with_store(&compiled, &data, &NoStore, ErrorPolicy::Strict).is_err());
    let by_store = validate_with_store(&compiled, &data, &NoStore, ErrorPolicy::BestEffort).unwrap();
    assert_eq!(by_store.results().len(), 1);
}

#[test]
fn turtle_text_becomes_a_graph() {
    let data = "@prefix : <http://example.org/> .\n:x :p 1, 2 ; :q \"hi\"@en .\n";
    let g = SRDFGraph::from_str(data, None).unwrap();
    assert_eq!(g.len(), 3);
    let ps = g.objects_for_subject_predicate(&ex("x"), "http://example.org/p");
    assert_eq!(ps.len(), 2);
    assert!(ps.contains(&integer("1")));
    let qs = g.objects_for_subject_predicate(&ex("x"), "http://example.org/q");
    assert_eq!(qs.len(), 1);
    match &qs[0] {
        Term::Literal(l) => {
            assert_eq!(l.lexical_form, "hi");
            assert_eq!(l.lang.as_deref(), Some("en"));
        },
        other => panic!("unexpected {other:?}"),
    }
    let relative = SRDFGraph::from_str("<a> <b> <c> .", Some("http://example.org/")).unwrap();
    assert_eq!(relative.objects_for_subject_predicate(&ex("a"), "http://example.org/b"), vec![ex("c")]);
    assert!(matches!(SRDFGraph::from_str(":x :p", None), Err(SRDFGraphError::Turtle(_))));
}

#[test]
fn shapes_read_from_turtle_validate_data() {
    let shapes = "@prefix sh: <http://www.w3.org/ns/shacl#> .\n@prefix : <http://example.org/> .\n\
        :S a sh:NodeShape ; sh:targetNode :alice ; sh:property :P .\n\
        :P sh:path :age ; sh:datatype <http://www.w3.org/2001/XMLSchema#integer> .\n";
    let data = "@prefix : <http://example.org/> .\n:alice :age \"old\" .\n";
    let schema = ShaclParser::new(SRDFGraph::from_str(shapes, None).unwrap()).parse().unwrap();
    let compiled = CompiledSchema::compile(&schema);
    let report = validate(&compiled, &SRDFGraph::from_str(data, None).unwrap(), ErrorPolicy::Strict)
        .unwrap();
    assert_eq!(report.results().len(), 1);
    assert_eq!(report.results()[0].source_component, ComponentKind::Datatype);
    let good = "@prefix : <http://example.org/> .\n:alice :age 42 .\n";
    let ok = validate(&compiled, &SRDFGraph::from_str(good, None).unwrap(), ErrorPolicy::Strict)
        .unwrap();
    assert!(ok.conforms());
}

#[test]
fn query_strategy_targets_follow_subclasses() {
    let mut data = SRDFGraph::new();
    data.add_triple(ex("alice"), RDF_TYPE.to_string(), ex("Student"));
    data.add_triple(
        ex("Student"),
        "http://www.w3.org/2000/01/rdf-schema#subClassOf".to_string(),
        ex("Person"),
    );
    let compiled = CompiledSchema::compile(&ShaclParser::new(person_shapes()).parse().unwrap());
    let native = validate(&compiled, &data, ErrorPolicy::Strict).unwrap();
    assert!(native.conforms());
    let by_store = validate_with_store(&compiled, &data, &NoStore, ErrorPolicy::Strict).unwrap();
    assert_eq!(by_store.results().len(), 1);
    assert_eq!(by_store.results()[0].focus_node, ex("alice"));
}
