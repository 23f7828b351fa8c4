use std::str::FromStr;

use shacl_validation::format::InputConvertFormat;
use shacl_validation::prefixmap::PrefixMap;
use shacl_validation::shex::{
    Annotation, DerefError, SemAct, Exclusion, ExclusionError, ExclusionType, IriExclusion, IriRef,
    LiteralExclusion, Name, ObjectValue, Ref, RefError, Shape, ShapeExpr, ShapeLabelIdx, TripleExpr,
    ValueConstraint,
};

#[test]
fn test_from_str() {
    assert_eq!(InputConvertFormat::from_str("CSV").unwrap(), InputConvertFormat::CSV)
}

#[test]
fn format_names_ignore_case() {
    assert_eq!(InputConvertFormat::from_str("Turtle").unwrap(), InputConvertFormat::Turtle);
    assert_eq!(InputConvertFormat::from_str("shexj").unwrap(), InputConvertFormat::ShExJ);
    assert_eq!(InputConvertFormat::from_str("XLSX").unwrap(), InputConvertFormat::Xlsx);
    assert_eq!(
        InputConvertFormat::from_str("json").unwrap_err(),
        "Unsupported input convert format json"
    );
    assert_eq!(InputConvertFormat::ShExC.name(), "shexc");
}

#[test]
fn references_need_absolute_iris() {
    assert_eq!(
        Ref::from_str("http://example.org/S").unwrap(),
        Ref::iri_unchecked("http://example.org/S")
    );
    assert_eq!(Ref::from_str("not an iri").unwrap_err(), RefError::InvalidIri("not an iri".to_string()));
    assert!(matches!(ShapeExpr::parse("http://example.org/S"), Ok(ShapeExpr::Ref(_))));
    assert_eq!(Ref::bnode_unchecked("b1").text(), "b1");
}

#[test]
fn shape_builders_set_their_fields() {
    let te = TripleExpr::TripleConstraint {
        predicate: IriRef::Iri("http://example.org/p".to_string()),
        min: Some(1),
        max: None,
    };
    let s = Shape::new(Some(true), None, None).with_expression(te.clone());
    assert_eq!(s.closed, Some(true));
    assert_eq!(s.expression.as_ref().map(|w| w.te.clone()), Some(te));
    let s = s.with_sem_acts(None).with_annotations(Some(Vec::new()));
    assert_eq!(s.annotations, Some(Vec::new()));
    assert_eq!(ShapeExpr::empty_shape(), ShapeExpr::Shape(Shape::default()));
    match ShapeExpr::or(vec![ShapeExpr::external(), ShapeExpr::any()]) {
        ShapeExpr::ShapeOr { shape_exprs } => {
            assert_eq!(shape_exprs.len(), 2);
            assert_eq!(shape_exprs[0].se, ShapeExpr::External);
        },
        other => panic!("unexpected {other:?}"),
    }
}

#[test]
fn label_indexes_start_at_one() {
    let mut idx = ShapeLabelIdx::default();
    assert_eq!(idx.as_usize(), 1);
    idx.incr();
    assert_eq!(idx.as_usize(), 2);
    assert!(ShapeLabelIdx::error().is_error());
    assert!(!idx.is_error());
}

#[test]
fn exclusions_read_type_and_stem() {
    assert_eq!(ExclusionType::parse("IriStem").unwrap(), ExclusionType::IriStem);
    assert_eq!(
        ExclusionType::parse("Stem").unwrap_err(),
        ExclusionError::UnknownType("Stem".to_string())
    );
    assert_eq!(
        Exclusion::from_parts(Some(ExclusionType::LiteralStem), Some("ab".to_string())).unwrap(),
        Exclusion::LiteralExclusion(LiteralExclusion::LiteralStem("ab".to_string()))
    );
    assert_eq!(
        Exclusion::from_parts(Some(ExclusionType::IriStem), Some("http://".to_string())).unwrap(),
        Exclusion::IriExclusion(IriExclusion::IriStem("http://".to_string()))
    );
    assert_eq!(
        Exclusion::from_parts(Some(ExclusionType::IriStem), None).unwrap_err(),
        ExclusionError::MissingStem
    );
    assert_eq!(Exclusion::from_parts(None, None).unwrap_err(), ExclusionError::MissingType);
}

#[test]
fn value_constraint_defaults_to_any() {
    assert_eq!(ValueConstraint::default(), ValueConstraint::Any);
    let n = Name { name: "xsd:string".to_string(), href: None };
    assert_eq!(ValueConstraint::datatype(n.clone()), ValueConstraint::Datatype(n));
}

#[test]
fn label_indexes_show_as_numbers() {
    let mut idx = ShapeLabelIdx::default();
    for _ in 0..41 {
        idx.incr();
    }
    assert_eq!(idx.show(), "42");
    assert_eq!(ShapeLabelIdx::error().show(), "ERROR");
    assert_eq!(shacl_validation::shex::decimal(0), "0");
    assert_eq!(shacl_validation::shex::decimal(1907), "1907");
}

#[test]
fn shapes_dereference_prefixed_names() {
    let mut pm = PrefixMap::new();
    pm.insert("ex", "http://example.org/");
    let prefixed = |l: &str| IriRef::Prefixed { prefix: "ex".to_string(), local: l.to_string() };
    let full = |l: &str| IriRef::Iri(format!("http://example.org/{l}"));
    let shape = Shape::new(None, Some(vec![prefixed("p"), full("q")]), Some(TripleExpr::TripleConstraint {
        predicate: prefixed("name"),
        min: Some(1),
        max: Some(2),
    }))
    .with_annotations(Some(vec![Annotation::new(prefixed("label"), ObjectValue::IriRef(prefixed("x")))]));
    let d = shape.deref(&pm).unwrap();
    assert_eq!(d.extra, Some(vec![full("p"), full("q")]));
    assert_eq!(
        d.expression.map(|w| w.te),
        Some(TripleExpr::TripleConstraint { predicate: full("name"), min: Some(1), max: Some(2) })
    );
    assert_eq!(d.annotations, Some(vec![Annotation::new(full("label"), ObjectValue::IriRef(full("x")))]));
    let unknown = IriRef::Prefixed { prefix: "foaf".to_string(), local: "name".to_string() };
    let bad = Shape::new(None, Some(vec![unknown]), None);
    assert_eq!(bad.deref(&pm).unwrap_err(), DerefError::PrefixNotFound("foaf".to_string()));
}

#[test]
fn shape_expressions_dereference_recursively() {
    let mut pm = PrefixMap::new();
    pm.insert("xsd", "http://www.w3.org/2001/XMLSchema#");
    let nc = shacl_validation::shex::NodeConstraint {
        node_kind: None,
        datatype: Some(IriRef::Prefixed { prefix: "xsd".to_string(), local: "string".to_string() }),
    };
    let e = ShapeExpr::and(vec![ShapeExpr::node_constraint(nc), ShapeExpr::not(ShapeExpr::external())]);
    match e.deref(&pm).unwrap() {
        ShapeExpr::ShapeAnd { shape_exprs } => {
            assert_eq!(shape_exprs.len(), 2);
            match &shape_exprs[0].se {
                ShapeExpr::NodeConstraint(nc) => assert_eq!(
                    nc.datatype,
                    Some(IriRef::Iri("http://www.w3.org/2001/XMLSchema#string".to_string()))
                ),
                other => panic!("unexpected {other:?}"),
            }
        },
        other => panic!("unexpected {other:?}"),
    }
    let missing = ShapeExpr::or(vec![ShapeExpr::node_constraint(shacl_validation::shex::NodeConstraint {
        node_kind: None,
        datatype: Some(IriRef::Prefixed { prefix: "ex".to_string(), local: "T".to_string() }),
    })]);
    assert!(missing.deref(&pm).is_err());
}

#[test]
fn dereferencing_keeps_order_and_reports_the_first_failure() {
    let mut pm = PrefixMap::new();
    pm.insert("ex", "http://example.org/");
    let pre = |p: &str, l: &str| IriRef::Prefixed { prefix: p.to_string(), local: l.to_string() };
    let full = |l: &str| IriRef::Iri(format!("http://example.org/{l}"));
    let acts = vec![
        SemAct { name: pre("ex", "a"), code: Some("x".to_string()) },
        SemAct { name: pre("ex", "b"), code: None },
    ];
    let s = Shape::new(None, None, None).with_sem_acts(Some(acts));
    assert_eq!(
        s.deref(&pm).unwrap().sem_acts,
        Some(vec![
            SemAct { name: full("a"), code: Some("x".to_string()) },
            SemAct { name: full("b"), code: None },
        ])
    );
    let bad = Shape::new(None, None, None)
        .with_sem_acts(Some(vec![SemAct { name: pre("s1", "a"), code: None }]))
        .with_annotations(Some(vec![Annotation::new(pre("a1", "p"), ObjectValue::IriRef(pre("a2", "o")))]));
    assert_eq!(bad.deref(&pm).unwrap_err(), DerefError::PrefixNotFound("a1".to_string()));
}
