//! The abstract syntax of ShEx schemas: shapes, shape expressions,
//! references, exclusions and annotations.

use vstd::prelude::*;
use vstd::string::StringExecFns;
use crate::prefixmap::{iri_of, PrefixMap};

verus! {

/// An IRI, written in full or as a prefixed name.
#[derive(Debug, Clone, PartialEq)]
pub enum IriRef {
    Iri(String),
    Prefixed { prefix: String, local: String },
}

/// The object of an annotation: an IRI or a literal's lexical form.
#[derive(Debug, Clone, PartialEq)]
pub enum ObjectValue {
    IriRef(IriRef),
    Literal(String),
}

/// An annotation: a predicate and an object attached to a shape or expression.
#[derive(Debug, Clone, PartialEq)]
pub struct Annotation {
    predicate: IriRef,
    object: ObjectValue,
}

impl Annotation {
    /// An annotation of `predicate` with `object`.
    pub fn new(predicate: IriRef, object: ObjectValue) -> (r: Annotation)
        ensures
            r.predicate_spec() == predicate,
            r.object_spec() == object,
    {
        Annotation { predicate, object }
    }

    pub closed spec fn predicate_spec(&self) -> IriRef {
        self.predicate
    }

    pub closed spec fn object_spec(&self) -> ObjectValue {
        self.object
    }

    pub fn predicate(&self) -> (r: &IriRef)
        ensures
            *r == self.predicate_spec(),
    {
        &self.predicate
    }

    pub fn object(&self) -> (r: &ObjectValue)
        ensures
            *r == self.object_spec(),
    {
        &self.object
    }
}

/// A semantic action: a named extension with optional code.
#[derive(Debug, Clone, PartialEq)]
pub struct SemAct {
    pub name: IriRef,
    pub code: Option<String>,
}

/// A triple expression; at present a constraint on one predicate.
#[derive(Debug, Clone, PartialEq)]
pub enum TripleExpr {
    TripleConstraint { predicate: IriRef, min: Option<i32>, max: Option<i32> },
}

/// A triple expression in the position where one is expected.
#[derive(Debug, Clone, PartialEq)]
pub struct TripleExprWrapper {
    pub te: TripleExpr,
}

/// A ShEx shape: closedness, extra predicates, an expression, semantic
/// actions and annotations.
#[derive(Debug, Clone, PartialEq)]
pub struct Shape {
    pub closed: Option<bool>,
    pub extra: Option<Vec<IriRef>>,
    pub expression: Option<TripleExprWrapper>,
    pub sem_acts: Option<Vec<SemAct>>,
    pub annotations: Option<Vec<Annotation>>,
}

impl Shape {
    /// A shape without semantic actions or annotations.
    pub fn new(closed: Option<bool>, extra: Option<Vec<IriRef>>, expression: Option<TripleExpr>) -> (r:
        Shape)
        ensures
            r.closed == closed,
            r.extra == extra,
            r.expression == match expression {
                Some(e) => Some(TripleExprWrapper { te: e }),
                None => None,
            },
            r.sem_acts is None,
            r.annotations is None,
    {
        let expression = match expression {
            Some(e) => Some(TripleExprWrapper { te: e }),
            None => None,
        };
        Shape { closed, extra, expression, sem_acts: None, annotations: None }
    }

    /// The shape with `expression` as its triple expression.
    pub fn with_expression(self, expression: TripleExpr) -> (r: Shape)
        ensures
            r == (Shape { expression: Some(TripleExprWrapper { te: expression }), ..self }),
    {
        Shape { expression: Some(TripleExprWrapper { te: expression }), ..self }
    }

    /// The shape with `sem_acts` as its semantic actions.
    pub fn with_sem_acts(self, sem_acts: Option<Vec<SemAct>>) -> (r: Shape)
        ensures
            r == (Shape { sem_acts, ..self }),
    {
        Shape { sem_acts, ..self }
    }

    /// The shape with `annotations` as its annotations.
    pub fn with_annotations(self, annotations: Option<Vec<Annotation>>) -> (r: Shape)
        ensures
            r == (Shape { annotations, ..self }),
    {
        Shape { annotations, ..self }
    }
}

impl Default for Shape {
    fn default() -> (r: Shape)
        ensures
            r == (Shape { closed: None, extra: None, expression: None, sem_acts: None, annotations: None }),
    {
        Shape { closed: None, extra: None, expression: None, sem_acts: None, annotations: None }
    }
}

/// A reference to a shape: by IRI or by blank node label.
#[derive(Debug, Clone, PartialEq)]
pub enum Ref {
    IriRef { value: String },
    BNode { value: String },
}

impl Ref {
    /// A reference by IRI, taken as it is.
    pub fn iri_unchecked(s: &str) -> (r: Ref)
        ensures
            r matches Ref::IriRef { value } && value@ == s@,
    {
        Ref::IriRef { value: s.to_string() }
    }

    /// A reference by blank node label.
    pub fn bnode_unchecked(s: &str) -> (r: Ref)
        ensures
            r matches Ref::BNode { value } && value@ == s@,
    {
        Ref::BNode { value: s.to_string() }
    }

    /// The text of the reference: the IRI or the label.
    pub fn text(&self) -> (r: String)
        ensures
            r@ == match self {
                Ref::IriRef { value } => value@,
                Ref::BNode { value } => value@,
            },
    {
        match self {
            Ref::IriRef { value } => value.clone(),
            Ref::BNode { value } => value.clone(),
        }
    }
}

/// Whether oxiri reads `s` as an absolute IRI.
pub uninterp spec fn is_absolute_iri(s: Seq<char>) -> bool;

/// Relies on oxiri's `Iri::parse`: whether `s` is an absolute IRI, which
/// depends on `s` alone.
#[verifier::external_body]
fn iri_parses(s: &str) -> (r: bool)
    ensures
        r == is_absolute_iri(s@),
{
    oxiri::Iri::parse(s).is_ok()
}

/// Why a reference could not be read.
#[derive(Debug, Clone, PartialEq)]
pub enum RefError {
    /// The text is not an absolute IRI.
    InvalidIri(String),
}

impl Ref {
    /// Reads a reference by IRI; the text must be an absolute IRI.
    pub fn parse(s: &str) -> (r: Result<Ref, RefError>)
        ensures
            r is Ok == is_absolute_iri(s@),
            r matches Ok(x) ==> (x matches Ref::IriRef { value } && value@ == s@),
            r matches Err(e) ==> (e matches RefError::InvalidIri(m) && m@ == s@),
    {
        if iri_parses(s) {
            Ok(Ref::iri_unchecked(s))
        } else {
            Err(RefError::InvalidIri(s.to_string()))
        }
    }
}

impl std::str::FromStr for Ref {
    type Err = RefError;

    fn from_str(s: &str) -> Result<Ref, RefError> {
        Ref::parse(s)
    }
}

/// The kind of node a node constraint admits.
#[derive(Debug, Clone, Copy, PartialEq, Eq, Structural)]
pub enum ShExNodeKind {
    Iri,
    BNode,
    NonLiteral,
    Literal,
}

/// A node constraint: a node kind and a datatype, each optional.
#[derive(Debug, Clone, PartialEq)]
pub struct NodeConstraint {
    pub node_kind: Option<ShExNodeKind>,
    pub datatype: Option<IriRef>,
}

/// A shape expression in the position where one is expected.
#[derive(Debug, PartialEq)]
pub struct ShapeExprWrapper {
    pub se: ShapeExpr,
}

/// A shape expression: a combination, a node constraint, a shape, an
/// external shape or a reference.
#[derive(Debug, PartialEq)]
pub enum ShapeExpr {
    ShapeOr { shape_exprs: Vec<ShapeExprWrapper> },
    ShapeAnd { shape_exprs: Vec<ShapeExprWrapper> },
    ShapeNot { shape_expr: Box<ShapeExprWrapper> },
    NodeConstraint(NodeConstraint),
    Shape(Shape),
    External,
    Ref(Ref),
}

pub open spec fn wraps(ws: Seq<ShapeExprWrapper>, ses: Seq<ShapeExpr>) -> bool {
    ws.len() == ses.len() && forall|i: int| 0 <= i < ses.len() ==> (#[trigger] ws[i]).se == ses[i]
}

fn wrap_all(ses: Vec<ShapeExpr>) -> (r: Vec<ShapeExprWrapper>)
    ensures
        wraps(r@, ses@),
{
    let ghost orig = ses@;
    let mut rest = ses;
    let mut rev: Vec<ShapeExprWrapper> = Vec::new();
    while rest.len() > 0
        invariant
            rest@.len() + rev@.len() == orig.len(),
            rest@ == orig.take(rest@.len() as int),
            forall|k: int| 0 <= k < rev@.len() ==> (#[trigger] rev@[k]).se == orig[orig.len() - 1 - k],
        decreases rest.len(),
    {
        let se = rest.pop().unwrap();
        rev.push(ShapeExprWrapper { se });
        assert(rest@ =~= orig.take(rest@.len() as int));
    }
    let mut out: Vec<ShapeExprWrapper> = Vec::new();
    while rev.len() > 0
        invariant
            out@.len() + rev@.len() == orig.len(),
            forall|k: int| 0 <= k < rev@.len() ==> (#[trigger] rev@[k]).se == orig[orig.len() - 1 - k],
            forall|k: int| 0 <= k < out@.len() ==> (#[trigger] out@[k]).se == orig[k],
        decreases rev.len(),
    {
        let w = rev.pop().unwrap();
        out.push(w);
    }
    out
}

impl ShapeExpr {
    /// The shape without constraints.
    pub fn empty_shape() -> (r: ShapeExpr)
        ensures
            r == ShapeExpr::Shape(
                Shape { closed: None, extra: None, expression: None, sem_acts: None, annotations: None },
            ),
    {
        ShapeExpr::Shape(Shape::default())
    }

    pub fn external() -> (r: ShapeExpr)
        ensures
            r == ShapeExpr::External,
    {
        ShapeExpr::External
    }

    /// The negation of `se`.
    pub fn not(se: ShapeExpr) -> (r: ShapeExpr)
        ensures
            r matches ShapeExpr::ShapeNot { shape_expr } && shape_expr.se == se,
    {
        ShapeExpr::ShapeNot { shape_expr: Box::new(ShapeExprWrapper { se }) }
    }

    /// The disjunction of `ses`, in order.
    pub fn or(ses: Vec<ShapeExpr>) -> (r: ShapeExpr)
        ensures
            r matches ShapeExpr::ShapeOr { shape_exprs } && wraps(shape_exprs@, ses@),
    {
        ShapeExpr::ShapeOr { shape_exprs: wrap_all(ses) }
    }

    /// The conjunction of `ses`, in order.
    pub fn and(ses: Vec<ShapeExpr>) -> (r: ShapeExpr)
        ensures
            r matches ShapeExpr::ShapeAnd { shape_exprs } && wraps(shape_exprs@, ses@),
    {
        ShapeExpr::ShapeAnd { shape_exprs: wrap_all(ses) }
    }

    pub fn node_constraint(nc: NodeConstraint) -> (r: ShapeExpr)
        ensures
            r == ShapeExpr::NodeConstraint(nc),
    {
        ShapeExpr::NodeConstraint(nc)
    }

    pub fn iri_ref(iri: String) -> (r: ShapeExpr)
        ensures
            r == ShapeExpr::Ref(Ref::IriRef { value: iri }),
    {
        ShapeExpr::Ref(Ref::IriRef { value: iri })
    }

    pub fn shape_ref(reference: Ref) -> (r: ShapeExpr)
        ensures
            r == ShapeExpr::Ref(reference),
    {
        ShapeExpr::Ref(reference)
    }

    /// The expression that any node satisfies: the empty shape.
    pub fn any() -> (r: ShapeExpr)
        ensures
            r == ShapeExpr::Shape(
                Shape { closed: None, extra: None, expression: None, sem_acts: None, annotations: None },
            ),
    {
        ShapeExpr::empty_shape()
    }

    /// A reference to the shape whose IRI is `s`; the text must be an absolute IRI.
    pub fn parse(s: &str) -> (r: Result<ShapeExpr, RefError>)
        ensures
            r is Ok == is_absolute_iri(s@),
            r matches Ok(x) ==> (x matches ShapeExpr::Ref(Ref::IriRef { value }) && value@ == s@),
    {
        match Ref::parse(s) {
            Ok(x) => Ok(ShapeExpr::Ref(x)),
            Err(e) => Err(e),
        }
    }

    pub fn shape(shape: Shape) -> (r: ShapeExpr)
        ensures
            r == ShapeExpr::Shape(shape),
    {
        ShapeExpr::Shape(shape)
    }
}

/// A language tag.
#[derive(Debug, Clone, PartialEq)]
pub struct Lang {
    pub tag: String,
}

#[derive(Debug, Clone, PartialEq)]
pub enum LiteralExclusion {
    Literal(String),
    LiteralStem(String),
}

#[derive(Debug, Clone, PartialEq)]
pub enum IriExclusion {
    Iri(IriRef),
    IriStem(String),
}

#[derive(Debug, Clone, PartialEq)]
pub enum LanguageExclusion {
    Language(Lang),
    LanguageStem(String),
}

/// A value excluded from a stem range.
#[derive(Debug, Clone, PartialEq)]
pub enum Exclusion {
    LiteralExclusion(LiteralExclusion),
    LanguageExclusion(LanguageExclusion),
    IriExclusion(IriExclusion),
}

/// The `type` of a stem exclusion in the JSON form.
#[derive(Debug, Clone, Copy, PartialEq, Eq, Structural)]
pub enum ExclusionType {
    IriStem,
    LiteralStem,
    LanguageStem,
}

/// Why an exclusion could not be read.
#[derive(Debug, Clone, PartialEq)]
pub enum ExclusionError {
    /// The `type` is not one of `IriStem`, `LanguageStem`, `LiteralStem`.
    UnknownType(String),
    /// The `type` is missing.
    MissingType,
    /// The `stem` is missing.
    MissingStem,
}

fn str_eq(a: &str, b: &str) -> (r: bool)
    ensures
        r == (a@ == b@),
{
    let x = a.to_string();
    let y = b.to_string();
    x.eq(&y)
}

impl ExclusionType {
    /// Reads the `type` of a stem exclusion.
    pub fn parse(s: &str) -> (r: Result<ExclusionType, ExclusionError>)
        ensures
            s@ == "IriStem"@ ==> r == Ok::<ExclusionType, ExclusionError>(ExclusionType::IriStem),
            s@ == "LanguageStem"@ ==> r == Ok::<ExclusionType, ExclusionError>(
                ExclusionType::LanguageStem,
            ),
            s@ == "LiteralStem"@ ==> r == Ok::<ExclusionType, ExclusionError>(
                ExclusionType::LiteralStem,
            ),
            !(s@ == "IriStem"@ || s@ == "LanguageStem"@ || s@ == "LiteralStem"@) ==> (r matches Err(
                ExclusionError::UnknownType(v),
            ) && v@ == s@),
    {
        proof {
            reveal_strlit("IriStem");
            reveal_strlit("LanguageStem");
            reveal_strlit("LiteralStem");
            assert("IriStem"@.len() == 7);
            assert("LanguageStem"@.len() == 12);
            assert("LiteralStem"@.len() == 11);
        }
        if str_eq(s, "IriStem") {
            Ok(ExclusionType::IriStem)
        } else if str_eq(s, "LanguageStem") {
            Ok(ExclusionType::LanguageStem)
        } else if str_eq(s, "LiteralStem") {
            Ok(ExclusionType::LiteralStem)
        } else {
            Err(ExclusionError::UnknownType(s.to_string()))
        }
    }
}

impl Exclusion {
    /// The exclusion that a `type` and a `stem` describe.
    pub fn from_parts(type_: Option<ExclusionType>, stem: Option<String>) -> (r: Result<
        Exclusion,
        ExclusionError,
    >)
        ensures
            type_ is None ==> r == Err::<Exclusion, ExclusionError>(ExclusionError::MissingType),
            type_ is Some && stem is None ==> r == Err::<Exclusion, ExclusionError>(
                ExclusionError::MissingStem,
            ),
            type_ == Some(ExclusionType::LiteralStem) && stem is Some ==> r == Ok::<
                Exclusion,
                ExclusionError,
            >(Exclusion::LiteralExclusion(LiteralExclusion::LiteralStem(stem->0))),
            type_ == Some(ExclusionType::LanguageStem) && stem is Some ==> r == Ok::<
                Exclusion,
                ExclusionError,
            >(Exclusion::LanguageExclusion(LanguageExclusion::LanguageStem(stem->0))),
            type_ == Some(ExclusionType::IriStem) && stem is Some ==> r == Ok::<
                Exclusion,
                ExclusionError,
            >(Exclusion::IriExclusion(IriExclusion::IriStem(stem->0))),
    {
        match (type_, stem) {
            (None, _) => Err(ExclusionError::MissingType),
            (Some(_), None) => Err(ExclusionError::MissingStem),
            (Some(ExclusionType::LiteralStem), Some(s)) => Ok(
                Exclusion::LiteralExclusion(LiteralExclusion::LiteralStem(s)),
            ),
            (Some(ExclusionType::LanguageStem), Some(s)) => Ok(
                Exclusion::LanguageExclusion(LanguageExclusion::LanguageStem(s)),
            ),
            (Some(ExclusionType::IriStem), Some(s)) => Ok(
                Exclusion::IriExclusion(IriExclusion::IriStem(s)),
            ),
        }
    }
}

/// The index of a shape label; 0 is reserved for errors, so indexes start at 1.
#[derive(Debug, Clone, Copy, PartialEq, Eq, Hash, Structural)]
pub struct ShapeLabelIdx(usize);

impl ShapeLabelIdx {
    pub closed spec fn value(&self) -> usize {
        self.0
    }

    /// Moves to the next index.
    pub fn incr(&mut self)
        requires
            old(self).value() < usize::MAX,
        ensures
            final(self).value() == old(self).value() + 1,
    {
        self.0 = self.0 + 1;
    }

    /// The index reserved for errors.
    pub fn error() -> (r: ShapeLabelIdx)
        ensures
            r.value() == 0,
    {
        ShapeLabelIdx(0)
    }

    /// Whether this is the error index.
    pub fn is_error(&self) -> (r: bool)
        ensures
            r == (self.value() == 0),
    {
        self.0 == 0
    }

    /// The index as a number.
    pub fn as_usize(&self) -> (r: usize)
        ensures
            r == self.value(),
    {
        self.0
    }
}

pub open spec fn digit_text(d: nat) -> Seq<char> {
    seq![(('0' as nat) + d) as char]
}

/// The decimal numeral of `n`.
pub open spec fn decimal_text(n: nat) -> Seq<char>
    decreases n,
{
    if n < 10 {
        digit_text(n)
    } else {
        decimal_text(n / 10) + digit_text(n % 10)
    }
}

fn digit_str(d: usize) -> (r: &'static str)
    requires
        d < 10,
    ensures
        r@ == digit_text(d as nat),
{
    proof {
        reveal_strlit("0");
        reveal_strlit("1");
        reveal_strlit("2");
        reveal_strlit("3");
        reveal_strlit("4");
        reveal_strlit("5");
        reveal_strlit("6");
        reveal_strlit("7");
        reveal_strlit("8");
        reveal_strlit("9");
    }
    let r = if d == 0 {
        "0"
    } else if d == 1 {
        "1"
    } else if d == 2 {
        "2"
    } else if d == 3 {
        "3"
    } else if d == 4 {
        "4"
    } else if d == 5 {
        "5"
    } else if d == 6 {
        "6"
    } else if d == 7 {
        "7"
    } else if d == 8 {
        "8"
    } else {
        "9"
    };
    assert(r@ =~= digit_text(d as nat));
    r
}

/// The decimal numeral of `n`.
pub fn decimal(n: usize) -> (r: String)
    ensures
        r@ == decimal_text(n as nat),
    decreases n,
{
    if n < 10 {
        digit_str(n).to_string()
    } else {
        let mut s = decimal(n / 10);
        s.append(digit_str(n % 10));
        s
    }
}

impl ShapeLabelIdx {
    /// The index as it is shown: `ERROR` for the error index, else its number.
    pub fn show(&self) -> (r: String)
        ensures
            self.value() == 0 ==> r@ == "ERROR"@,
            self.value() != 0 ==> r@ == decimal_text(self.value() as nat),
    {
        if self.0 == 0 {
            "ERROR".to_string()
        } else {
            decimal(self.0)
        }
    }
}

impl Default for ShapeLabelIdx {
    fn default() -> (r: ShapeLabelIdx)
        ensures
            r.value() == 1,
    {
        ShapeLabelIdx(1)
    }
}

/// A name in a UML rendering of a schema, with an optional link.
#[derive(Debug, Clone, PartialEq)]
pub struct Name {
    pub name: String,
    pub href: Option<String>,
}

/// What a UML attribute's values are constrained to.
#[derive(Debug, Clone, PartialEq)]
pub enum ValueConstraint {
    Any,
    Datatype(Name),
    Ref(Name),
    NoValue,
}

impl ValueConstraint {
    /// Values of the datatype `name`.
    pub fn datatype(name: Name) -> (r: ValueConstraint)
        ensures
            r == ValueConstraint::Datatype(name),
    {
        ValueConstraint::Datatype(name)
    }
}

impl Default for ValueConstraint {
    fn default() -> (r: ValueConstraint)
        ensures
            r == ValueConstraint::Any,
    {
        ValueConstraint::Any
    }
}

/// The IRI that a reference stands for under the prefix declarations `pm`:
/// a full IRI as it is, a prefixed name as the namespace of its alias
/// followed by its local name; none when the alias is not declared.
pub open spec fn resolve_view(i: IriRef, pm: Seq<(Seq<char>, Seq<char>)>) -> Option<Seq<char>> {
    match i {
        IriRef::Iri(s) => Some(s@),
        IriRef::Prefixed { prefix, local } => match iri_of(pm, prefix@) {
            Some(ns) => Some(ns + local@),
            None => None,
        },
    }
}

/// `r` is the full IRI that `i` stands for.
pub open spec fn resolved_as(r: IriRef, i: IriRef, pm: Seq<(Seq<char>, Seq<char>)>) -> bool {
    r matches IriRef::Iri(s) && resolve_view(i, pm) == Some(s@)
}

/// Why a reference could not be made a full IRI.
#[derive(Debug, Clone, PartialEq)]
pub enum DerefError {
    /// The alias of a prefixed name is not declared.
    PrefixNotFound(String),
}

impl IriRef {
    /// The full IRI that the reference stands for under `pm`.
    pub fn deref(&self, pm: &PrefixMap) -> (r: Result<IriRef, DerefError>)
        requires
            pm.wf(),
        ensures
            resolve_view(*self, pm@) is Some ==> (r matches Ok(x) && resolved_as(x, *self, pm@)),
            resolve_view(*self, pm@) is None ==> (r matches Err(DerefError::PrefixNotFound(p))
                && p@ == alias_of(*self)),
    {
        match self {
            IriRef::Iri(s) => Ok(IriRef::Iri(s.clone())),
            IriRef::Prefixed { prefix, local } => match pm.find(prefix.as_str()) {
                Some(ns) => {
                    let mut iri = ns;
                    iri.append(local.as_str());
                    Ok(IriRef::Iri(iri))
                },
                None => Err(DerefError::PrefixNotFound(prefix.clone())),
            },
        }
    }
}

/// The alias of a prefixed name.
pub open spec fn alias_of(i: IriRef) -> Seq<char> {
    match i {
        IriRef::Prefixed { prefix, .. } => prefix@,
        IriRef::Iri(_) => Seq::empty(),
    }
}

/// The undeclared alias of a reference that does not resolve.
pub open spec fn ref_failure(i: IriRef, pm: Seq<(Seq<char>, Seq<char>)>) -> Option<Seq<char>> {
    if resolve_view(i, pm) is None {
        Some(alias_of(i))
    } else {
        None
    }
}

/// The first failure among the first `n` of `fs`.
pub open spec fn first_some(fs: Seq<Option<Seq<char>>>, n: int) -> Option<Seq<char>>
    decreases n,
{
    if n <= 0 {
        None
    } else {
        match first_some(fs, n - 1) {
            Some(x) => Some(x),
            None => fs[n - 1],
        }
    }
}

proof fn lemma_first_some_stable(fs: Seq<Option<Seq<char>>>, i: int, n: int)
    requires
        0 <= i <= n,
        first_some(fs, i) is Some,
    ensures
        first_some(fs, n) == first_some(fs, i),
    decreases n - i,
{
    if n > i {
        lemma_first_some_stable(fs, i, n - 1);
    }
}

/// The first failure of a semantic action: its name.
pub open spec fn sem_act_failure(a: SemAct, pm: Seq<(Seq<char>, Seq<char>)>) -> Option<Seq<char>> {
    ref_failure(a.name, pm)
}

/// The first failure of an annotation: its predicate, then an IRI object.
pub open spec fn annotation_failure(a: Annotation, pm: Seq<(Seq<char>, Seq<char>)>) -> Option<Seq<char>> {
    match ref_failure(a.predicate_spec(), pm) {
        Some(x) => Some(x),
        None => match a.object_spec() {
            ObjectValue::IriRef(i) => ref_failure(i, pm),
            ObjectValue::Literal(_) => None,
        },
    }
}

pub open spec fn refs_failures(v: Seq<IriRef>, pm: Seq<(Seq<char>, Seq<char>)>) -> Seq<Option<Seq<char>>> {
    v.map_values(|i: IriRef| ref_failure(i, pm))
}

pub open spec fn sem_acts_failures(v: Seq<SemAct>, pm: Seq<(Seq<char>, Seq<char>)>) -> Seq<Option<Seq<char>>> {
    v.map_values(|a: SemAct| sem_act_failure(a, pm))
}

pub open spec fn annotations_failures(v: Seq<Annotation>, pm: Seq<(Seq<char>, Seq<char>)>) -> Seq<
    Option<Seq<char>>,
> {
    v.map_values(|a: Annotation| annotation_failure(a, pm))
}

/// The undeclared alias that dereferencing a shape meets first, in the order
/// extra predicates, expression, annotations, semantic actions; none when
/// every reference resolves.
pub open spec fn shape_failure(s: Shape, pm: Seq<(Seq<char>, Seq<char>)>) -> Option<Seq<char>> {
    if extra_failure(s, pm) is Some {
        extra_failure(s, pm)
    } else if expr_failure(s, pm) is Some {
        expr_failure(s, pm)
    } else if anns_failure(s, pm) is Some {
        anns_failure(s, pm)
    } else {
        sems_failure(s, pm)
    }
}

pub open spec fn extra_failure(s: Shape, pm: Seq<(Seq<char>, Seq<char>)>) -> Option<Seq<char>> {
    match s.extra {
        Some(v) => first_some(refs_failures(v@, pm), v@.len() as int),
        None => None,
    }
}

pub open spec fn expr_failure(s: Shape, pm: Seq<(Seq<char>, Seq<char>)>) -> Option<Seq<char>> {
    match s.expression {
        Some(w) => match w.te {
            TripleExpr::TripleConstraint { predicate, .. } => ref_failure(predicate, pm),
        },
        None => None,
    }
}

pub open spec fn anns_failure(s: Shape, pm: Seq<(Seq<char>, Seq<char>)>) -> Option<Seq<char>> {
    match s.annotations {
        Some(v) => first_some(annotations_failures(v@, pm), v@.len() as int),
        None => None,
    }
}

pub open spec fn sems_failure(s: Shape, pm: Seq<(Seq<char>, Seq<char>)>) -> Option<Seq<char>> {
    match s.sem_acts {
        Some(v) => first_some(sem_acts_failures(v@, pm), v@.len() as int),
        None => None,
    }
}

/// `w` holds the full IRIs of the references of `v`, in order.
pub open spec fn all_resolved_as(w: Seq<IriRef>, v: Seq<IriRef>, pm: Seq<(Seq<char>, Seq<char>)>) -> bool {
    w.len() == v.len() && forall|i: int| 0 <= i < v.len() ==> resolved_as(#[trigger] w[i], v[i], pm)
}

/// `b` is the semantic action `a` with its name made a full IRI.
pub open spec fn sem_act_resolved_as(b: SemAct, a: SemAct, pm: Seq<(Seq<char>, Seq<char>)>) -> bool {
    resolved_as(b.name, a.name, pm) && b.code == a.code
}

/// `b` is the annotation `a` with its predicate and IRI object made full IRIs.
pub open spec fn annotation_resolved_as(b: Annotation, a: Annotation, pm: Seq<(Seq<char>, Seq<char>)>) -> bool {
    &&& resolved_as(b.predicate_spec(), a.predicate_spec(), pm)
    &&& match (b.object_spec(), a.object_spec()) {
        (ObjectValue::IriRef(y), ObjectValue::IriRef(x)) => resolved_as(y, x, pm),
        (ObjectValue::Literal(m), ObjectValue::Literal(l)) => m == l,
        _ => false,
    }
}

fn deref_all(v: &Vec<IriRef>, pm: &PrefixMap) -> (r: Result<Vec<IriRef>, DerefError>)
    requires
        pm.wf(),
    ensures
        first_some(refs_failures(v@, pm@), v@.len() as int) is None ==> (r matches Ok(w)
            && all_resolved_as(w@, v@, pm@)),
        first_some(refs_failures(v@, pm@), v@.len() as int) matches Some(a) ==> (r matches Err(
            DerefError::PrefixNotFound(p),
        ) && p@ == a),
{
    let ghost fs = refs_failures(v@, pm@);
    let mut out: Vec<IriRef> = Vec::new();
    let mut i: usize = 0;
    while i < v.len()
        invariant
            0 <= i <= v@.len(),
            pm.wf(),
            fs == refs_failures(v@, pm@),
            out@.len() == i,
            forall|k: int| 0 <= k < i ==> resolved_as(#[trigger] out@[k], v@[k], pm@),
            first_some(fs, i as int) is None,
        decreases v.len() - i,
    {
        assert(fs[i as int] == ref_failure(v@[i as int], pm@));
        match v[i].deref(pm) {
            Ok(x) => out.push(x),
            Err(e) => {
                proof {
                    lemma_first_some_stable(fs, i + 1, v@.len() as int);
                }
                return Err(e);
            },
        }
        i += 1;
    }
    Ok(out)
}

impl TripleExpr {
    /// The expression with its predicate made a full IRI.
    pub fn deref(&self, pm: &PrefixMap) -> (r: Result<TripleExpr, DerefError>)
        requires
            pm.wf(),
        ensures
            match *self {
                TripleExpr::TripleConstraint { predicate, .. } => match ref_failure(predicate, pm@) {
                    None => r is Ok,
                    Some(a) => r matches Err(DerefError::PrefixNotFound(p)) && p@ == a,
                },
            },
            r matches Ok(e) ==> match (e, *self) {
                (
                    TripleExpr::TripleConstraint { predicate: p2, min: m2, max: x2 },
                    TripleExpr::TripleConstraint { predicate, min, max },
                ) => resolved_as(p2, predicate, pm@) && m2 == min && x2 == max,
            },
    {
        match self {
            TripleExpr::TripleConstraint { predicate, min, max } => {
                let p = predicate.deref(pm)?;
                Ok(TripleExpr::TripleConstraint { predicate: p, min: *min, max: *max })
            },
        }
    }
}

impl Shape {
    /// The shape with every reference made a full IRI under `pm`: the extra
    /// predicates, the expression's predicate, the annotations' predicates
    /// and IRI objects, and the semantic actions' names, each list kept in
    /// order. Fails, with the first undeclared alias met in that order,
    /// exactly when some prefixed name has one.
    pub fn deref(&self, pm: &PrefixMap) -> (r: Result<Shape, DerefError>)
        requires
            pm.wf(),
        ensures
            shape_failure(*self, pm@) is None <==> r is Ok,
            shape_failure(*self, pm@) matches Some(a) ==> (r matches Err(DerefError::PrefixNotFound(p))
                && p@ == a),
            r matches Ok(s) ==> s.closed == self.closed,
            r matches Ok(s) ==> match (s.extra, self.extra) {
                (Some(w), Some(v)) => all_resolved_as(w@, v@, pm@),
                (None, None) => true,
                _ => false,
            },
            r matches Ok(s) ==> match (s.expression, self.expression) {
                (Some(w2), Some(w)) => match (w2.te, w.te) {
                    (
                        TripleExpr::TripleConstraint { predicate: p2, min: m2, max: x2 },
                        TripleExpr::TripleConstraint { predicate, min, max },
                    ) => resolved_as(p2, predicate, pm@) && m2 == min && x2 == max,
                },
                (None, None) => true,
                _ => false,
            },
            r matches Ok(s) ==> match (s.annotations, self.annotations) {
                (Some(w), Some(v)) => w@.len() == v@.len() && forall|i: int|
                    0 <= i < v@.len() ==> annotation_resolved_as(#[trigger] w@[i], v@[i], pm@),
                (None, None) => true,
                _ => false,
            },
            r matches Ok(s) ==> match (s.sem_acts, self.sem_acts) {
                (Some(w), Some(v)) => w@.len() == v@.len() && forall|i: int|
                    0 <= i < v@.len() ==> sem_act_resolved_as(#[trigger] w@[i], v@[i], pm@),
                (None, None) => true,
                _ => false,
            },
    {
        let extra = match &self.extra {
            Some(v) => Some(deref_all(v, pm)?),
            None => None,
        };
        let expression = match &self.expression {
            Some(w) => Some(TripleExprWrapper { te: w.te.deref(pm)? }),
            None => None,
        };
        let annotations = match &self.annotations {
            Some(v) => {
                let ghost fs = annotations_failures(v@, pm@);
                let mut out: Vec<Annotation> = Vec::new();
                let mut i: usize = 0;
                while i < v.len()
                    invariant
                        0 <= i <= v@.len(),
                        pm.wf(),
                        self.annotations == Some(*v),
                        extra_failure(*self, pm@) is None,
                        expr_failure(*self, pm@) is None,
                        fs == annotations_failures(v@, pm@),
                        first_some(fs, i as int) is None,
                        out@.len() == i,
                        forall|k: int| 0 <= k < i ==> annotation_resolved_as(#[trigger] out@[k], v@[k], pm@),
                    decreases v.len() - i,
                {
                    assert(fs[i as int] == annotation_failure(v@[i as int], pm@));
                    let predicate = match v[i].predicate().deref(pm) {
                        Ok(p) => p,
                        Err(e) => {
                            proof {
                                lemma_first_some_stable(fs, i + 1, v@.len() as int);
                            }
                            assert(shape_failure(*self, pm@) == first_some(fs, v@.len() as int));
                            return Err(e);
                        },
                    };
                    let object = match v[i].object() {
                        ObjectValue::IriRef(x) => match x.deref(pm) {
                            Ok(y) => ObjectValue::IriRef(y),
                            Err(e) => {
                                proof {
                                    lemma_first_some_stable(fs, i + 1, v@.len() as int);
                                }
                                assert(shape_failure(*self, pm@) == first_some(fs, v@.len() as int));
                                return Err(e);
                            },
                        },
                        ObjectValue::Literal(l) => ObjectValue::Literal(l.clone()),
                    };
                    out.push(Annotation::new(predicate, object));
                    i += 1;
                }
                Some(out)
            },
            None => None,
        };
        let sem_acts = match &self.sem_acts {
            Some(v) => {
                let ghost fs = sem_acts_failures(v@, pm@);
                let mut out: Vec<SemAct> = Vec::new();
                let mut i: usize = 0;
                while i < v.len()
                    invariant
                        0 <= i <= v@.len(),
                        pm.wf(),
                        self.sem_acts == Some(*v),
                        extra_failure(*self, pm@) is None,
                        expr_failure(*self, pm@) is None,
                        anns_failure(*self, pm@) is None,
                        fs == sem_acts_failures(v@, pm@),
                        first_some(fs, i as int) is None,
                        out@.len() == i,
                        forall|k: int| 0 <= k < i ==> sem_act_resolved_as(#[trigger] out@[k], v@[k], pm@),
                    decreases v.len() - i,
                {
                    assert(fs[i as int] == sem_act_failure(v@[i as int], pm@));
                    let name = match v[i].name.deref(pm) {
                        Ok(n) => n,
                        Err(e) => {
                            proof {
                                lemma_first_some_stable(fs, i + 1, v@.len() as int);
                            }
                            assert(shape_failure(*self, pm@) == first_some(fs, v@.len() as int));
                            return Err(e);
                        },
                    };
                    let code = match &v[i].code {
                        Some(c) => Some(c.clone()),
                        None => None,
                    };
                    out.push(SemAct { name, code });
                    i += 1;
                }
                Some(out)
            },
            None => None,
        };
        Ok(Shape { closed: self.closed, extra, expression, sem_acts, annotations })
    }
}

impl Ref {
    /// A copy of the reference.
    pub fn duplicate(&self) -> (r: Ref)
        ensures
            r == *self,
    {
        match self {
            Ref::IriRef { value } => Ref::IriRef { value: value.clone() },
            Ref::BNode { value } => Ref::BNode { value: value.clone() },
        }
    }
}

impl ShapeExpr {
    /// The expression with every prefixed name of its shapes and node
    /// constraints made a full IRI under `pm`, recursively through the
    /// combinations.
    pub fn deref(&self, pm: &PrefixMap) -> (r: Result<ShapeExpr, DerefError>)
        requires
            pm.wf(),
        ensures
            *self == ShapeExpr::External ==> r == Ok::<ShapeExpr, DerefError>(ShapeExpr::External),
            self is Ref ==> r == Ok::<ShapeExpr, DerefError>(*self),
            *self matches ShapeExpr::Shape(s) ==> (shape_failure(s, pm@) is None <==> r is Ok),
            *self matches ShapeExpr::NodeConstraint(nc) ==> ((nc.datatype matches Some(d) ==> resolve_view(
                d,
                pm@,
            ) is Some) <==> r is Ok),
            r matches Ok(e) ==> match (*self, e) {
                (ShapeExpr::ShapeOr { shape_exprs: a }, ShapeExpr::ShapeOr { shape_exprs: b }) => a@.len()
                    == b@.len(),
                (ShapeExpr::ShapeAnd { shape_exprs: a }, ShapeExpr::ShapeAnd { shape_exprs: b }) => a@.len()
                    == b@.len(),
                (ShapeExpr::ShapeNot { .. }, ShapeExpr::ShapeNot { .. }) => true,
                (ShapeExpr::NodeConstraint(a), ShapeExpr::NodeConstraint(b)) => a.node_kind == b.node_kind,
                (ShapeExpr::Shape(_), ShapeExpr::Shape(_)) => true,
                (ShapeExpr::External, ShapeExpr::External) => true,
                (ShapeExpr::Ref(_), ShapeExpr::Ref(_)) => true,
                _ => false,
            },
        decreases self,
    {
        match self {
            ShapeExpr::ShapeOr { shape_exprs } => {
                let v = deref_exprs(shape_exprs, pm)?;
                Ok(ShapeExpr::ShapeOr { shape_exprs: v })
            },
            ShapeExpr::ShapeAnd { shape_exprs } => {
                let v = deref_exprs(shape_exprs, pm)?;
                Ok(ShapeExpr::ShapeAnd { shape_exprs: v })
            },
            ShapeExpr::ShapeNot { shape_expr } => {
                let se = shape_expr.se.deref(pm)?;
                Ok(ShapeExpr::ShapeNot { shape_expr: Box::new(ShapeExprWrapper { se }) })
            },
            ShapeExpr::NodeConstraint(nc) => {
                let datatype = match &nc.datatype {
                    Some(d) => Some(d.deref(pm)?),
                    None => None,
                };
                Ok(ShapeExpr::NodeConstraint(NodeConstraint { node_kind: nc.node_kind, datatype }))
            },
            ShapeExpr::Shape(s) => Ok(ShapeExpr::Shape(s.deref(pm)?)),
            ShapeExpr::External => Ok(ShapeExpr::External),
            ShapeExpr::Ref(x) => Ok(ShapeExpr::Ref(x.duplicate())),
        }
    }
}

fn deref_exprs(v: &Vec<ShapeExprWrapper>, pm: &PrefixMap) -> (r: Result<
    Vec<ShapeExprWrapper>,
    DerefError,
>)
    requires
        pm.wf(),
    ensures
        r matches Ok(w) ==> w@.len() == v@.len(),
    decreases v, 0int,
{
    let mut out: Vec<ShapeExprWrapper> = Vec::new();
    let mut i: usize = 0;
    while i < v.len()
        invariant
            0 <= i <= v@.len(),
            pm.wf(),
            out@.len() == i,
        decreases v.len() - i,
    {
        proof {
            assert(decreases_to!(v => v@));
            assert(decreases_to!(v@ => v@[i as int]));
            assert(decreases_to!(v@[i as int] => v@[i as int].se));
        }
        let se = v[i].se.deref(pm)?;
        out.push(ShapeExprWrapper { se });
        i += 1;
    }
    Ok(out)
}

} // verus!
