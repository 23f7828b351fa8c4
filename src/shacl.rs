//! The SHACL shapes AST: targets, paths, constraint components and shapes.

use vstd::prelude::*;
use crate::term::{Term, TermV};
use crate::graph::terms_view;

verus! {

/// The kind of a node: IRI, literal or blank node.
#[derive(Debug, Clone, Copy, PartialEq, Eq, Structural)]
pub enum NodeKind {
    Iri,
    Literal,
    BlankNode,
}

/// A property path; at present a direct predicate.
#[derive(Debug)]
pub enum SHACLPath {
    Predicate(String),
}

impl View for SHACLPath {
    type V = Seq<char>;

    open spec fn view(&self) -> Seq<char> {
        match self {
            SHACLPath::Predicate(p) => p@,
        }
    }
}

impl Clone for SHACLPath {
    fn clone(&self) -> (r: Self)
        ensures
            r == *self,
    {
        match self {
            SHACLPath::Predicate(p) => SHACLPath::Predicate(p.clone()),
        }
    }
}

/// The view of a target.
pub enum TargetV {
    Class(TermV),
    Node(TermV),
}

/// A rule that selects focus nodes: the instances of a class, or one node.
#[derive(Debug)]
pub enum Target {
    TargetClass(Term),
    TargetNode(Term),
}

impl View for Target {
    type V = TargetV;

    open spec fn view(&self) -> TargetV {
        match self {
            Target::TargetClass(t) => TargetV::Class(t@),
            Target::TargetNode(t) => TargetV::Node(t@),
        }
    }
}

impl Clone for Target {
    fn clone(&self) -> (r: Self)
        ensures
            r == *self,
    {
        match self {
            Target::TargetClass(t) => Target::TargetClass(t.clone()),
            Target::TargetNode(t) => Target::TargetNode(t.clone()),
        }
    }
}

/// The view of a constraint component.
pub enum ComponentV {
    MinCount(u64),
    MaxCount(u64),
    Datatype(Seq<char>),
    Class(TermV),
    NodeKind(NodeKind),
    HasValue(TermV),
    In(Seq<TermV>),
    LessThan(Seq<char>),
    UniqueLang(bool),
}

/// A constraint component: one typed rule attached to a shape.
#[derive(Debug)]
pub enum Component {
    MinCount(u64),
    MaxCount(u64),
    Datatype(String),
    Class(Term),
    NodeKind(NodeKind),
    HasValue(Term),
    In(Vec<Term>),
    LessThan(SHACLPath),
    UniqueLang(bool),
}

impl View for Component {
    type V = ComponentV;

    open spec fn view(&self) -> ComponentV {
        match self {
            Component::MinCount(n) => ComponentV::MinCount(*n),
            Component::MaxCount(n) => ComponentV::MaxCount(*n),
            Component::Datatype(d) => ComponentV::Datatype(d@),
            Component::Class(c) => ComponentV::Class(c@),
            Component::NodeKind(k) => ComponentV::NodeKind(*k),
            Component::HasValue(t) => ComponentV::HasValue(t@),
            Component::In(ts) => ComponentV::In(terms_view(ts@)),
            Component::LessThan(p) => ComponentV::LessThan(p@),
            Component::UniqueLang(b) => ComponentV::UniqueLang(*b),
        }
    }
}

/// A copy of a list of terms.
pub fn clone_terms(v: &Vec<Term>) -> (r: Vec<Term>)
    ensures
        terms_view(r@) == terms_view(v@),
{
    let mut r: Vec<Term> = Vec::new();
    let mut i: usize = 0;
    while i < v.len()
        invariant
            0 <= i <= v.len(),
            terms_view(r@) == terms_view(v@.take(i as int)),
        decreases v.len() - i,
    {
        r.push(v[i].clone());
        assert(terms_view(v@.take(i + 1)) =~= terms_view(v@.take(i as int)).push(v@[i as int]@));
        assert(terms_view(r@) =~= terms_view(v@.take(i as int)).push(v@[i as int]@));
        i += 1;
    }
    assert(v@.take(i as int) =~= v@);
    r
}

impl Component {
    /// A copy with the same view.
    pub fn duplicate(&self) -> (r: Component)
        ensures
            r@ == self@,
    {
        match self {
            Component::MinCount(n) => Component::MinCount(*n),
            Component::MaxCount(n) => Component::MaxCount(*n),
            Component::Datatype(d) => Component::Datatype(d.clone()),
            Component::Class(c) => Component::Class(c.clone()),
            Component::NodeKind(k) => Component::NodeKind(*k),
            Component::HasValue(t) => Component::HasValue(t.clone()),
            Component::In(ts) => Component::In(clone_terms(ts)),
            Component::LessThan(p) => Component::LessThan(p.clone()),
            Component::UniqueLang(b) => Component::UniqueLang(*b),
        }
    }
}

/// A node shape: its identifier, targets and nested property shape identifiers.
#[derive(Debug)]
pub struct NodeShape {
    pub id: Term,
    pub targets: Vec<Target>,
    pub property_shapes: Vec<Term>,
}

/// A property shape: identifier, path, targets, nested property shapes and components.
#[derive(Debug)]
pub struct PropertyShape {
    pub id: Term,
    pub path: SHACLPath,
    pub targets: Vec<Target>,
    pub property_shapes: Vec<Term>,
    pub components: Vec<Component>,
}

/// A parsed shape.
#[derive(Debug)]
pub enum ShaclShape {
    NodeShape(NodeShape),
    PropertyShape(PropertyShape),
}

impl ShaclShape {
    pub open spec fn id_view(&self) -> TermV {
        match self {
            ShaclShape::NodeShape(n) => n.id@,
            ShaclShape::PropertyShape(p) => p.id@,
        }
    }

    /// The shape's identifier.
    pub fn id(&self) -> (r: &Term)
        ensures
            r@ == self.id_view(),
    {
        match self {
            ShaclShape::NodeShape(n) => &n.id,
            ShaclShape::PropertyShape(p) => &p.id,
        }
    }
}


pub open spec fn targets_view(s: Seq<Target>) -> Seq<TargetV> {
    s.map_values(|t: Target| t@)
}

pub open spec fn components_view(s: Seq<Component>) -> Seq<ComponentV> {
    s.map_values(|c: Component| c@)
}

/// The view of a node shape.
pub struct NodeShapeV {
    pub id: TermV,
    pub targets: Seq<TargetV>,
    pub property_shapes: Seq<TermV>,
}

/// The view of a property shape.
pub struct PropertyShapeV {
    pub id: TermV,
    pub path: Seq<char>,
    pub targets: Seq<TargetV>,
    pub property_shapes: Seq<TermV>,
    pub components: Seq<ComponentV>,
}

/// The view of a parsed shape.
pub enum ShapeV {
    Node(NodeShapeV),
    Property(PropertyShapeV),
}

impl ShapeV {
    pub open spec fn id(self) -> TermV {
        match self {
            ShapeV::Node(n) => n.id,
            ShapeV::Property(p) => p.id,
        }
    }
}

impl View for ShaclShape {
    type V = ShapeV;

    open spec fn view(&self) -> ShapeV {
        match self {
            ShaclShape::NodeShape(n) => ShapeV::Node(
                NodeShapeV {
                    id: n.id@,
                    targets: targets_view(n.targets@),
                    property_shapes: terms_view(n.property_shapes@),
                },
            ),
            ShaclShape::PropertyShape(p) => ShapeV::Property(
                PropertyShapeV {
                    id: p.id@,
                    path: p.path@,
                    targets: targets_view(p.targets@),
                    property_shapes: terms_view(p.property_shapes@),
                    components: components_view(p.components@),
                },
            ),
        }
    }
}

pub open spec fn shapes_view(s: Seq<ShaclShape>) -> Seq<ShapeV> {
    s.map_values(|x: ShaclShape| x@)
}

pub open spec fn ids_of(s: Seq<ShapeV>) -> Seq<TermV> {
    s.map_values(|x: ShapeV| x.id())
}

/// A shapes graph: the parsed shapes, each identifier at most once.
#[derive(Debug)]
pub struct Schema {
    shapes: Vec<ShaclShape>,
}

impl View for Schema {
    type V = Seq<ShapeV>;

    closed spec fn view(&self) -> Seq<ShapeV> {
        shapes_view(self.shapes@)
    }
}

impl Schema {
    pub open spec fn wf(&self) -> bool {
        ids_of(self@).no_duplicates()
    }

    /// A schema without shapes.
    pub fn new() -> (r: Schema)
        ensures
            r@ == Seq::<ShapeV>::empty(),
            r.wf(),
    {
        let r = Schema { shapes: Vec::new() };
        assert(r@ =~= Seq::<ShapeV>::empty());
        assert(ids_of(r@) =~= Seq::<TermV>::empty());
        r
    }

    /// A schema that holds `shapes`, whose identifiers must be distinct.
    pub fn from_shapes(shapes: Vec<ShaclShape>) -> (r: Schema)
        requires
            ids_of(shapes_view(shapes@)).no_duplicates(),
        ensures
            r@ == shapes_view(shapes@),
            r.wf(),
    {
        Schema { shapes }
    }

    /// The shapes.
    pub fn shapes(&self) -> (r: &Vec<ShaclShape>)
        ensures
            shapes_view(r@) == self@,
    {
        &self.shapes
    }
}

} // verus!
