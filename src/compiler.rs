//! Compilation of parsed shapes into an index keyed by shape identifier.
//! Nested shapes stay identifiers, so shapes that refer to each other, even
//! in a cycle, are each compiled once.

use vstd::prelude::*;
use crate::graph::{contains_term, terms_view};
use crate::shacl::{
    clone_terms, components_view, ids_of, targets_view, Component, ComponentV, SHACLPath, Schema,
    ShaclShape, ShapeV, Target, TargetV,
};
use crate::term::{Term, TermV};

verus! {

/// The view of a compiled shape.
pub struct CompiledV {
    pub id: TermV,
    pub path: Option<Seq<char>>,
    pub targets: Seq<TargetV>,
    pub property_shapes: Seq<TermV>,
    pub components: Seq<ComponentV>,
}

/// A shape ready for validation: its path resolved (none for a node shape),
/// its components without repetition, its nested shapes as identifiers.
#[derive(Debug)]
pub struct CompiledShape {
    pub id: Term,
    pub path: Option<SHACLPath>,
    pub targets: Vec<Target>,
    pub property_shapes: Vec<Term>,
    pub components: Vec<Component>,
}

impl View for CompiledShape {
    type V = CompiledV;

    open spec fn view(&self) -> CompiledV {
        CompiledV {
            id: self.id@,
            path: match self.path {
                Some(p) => Some(p@),
                None => None,
            },
            targets: targets_view(self.targets@),
            property_shapes: terms_view(self.property_shapes@),
            components: components_view(self.components@),
        }
    }
}

/// The first `n` components with later repetitions left out.
pub open spec fn dedup_components(cs: Seq<ComponentV>, n: int) -> Seq<ComponentV>
    decreases n,
{
    if n <= 0 {
        Seq::empty()
    } else {
        let prev = dedup_components(cs, n - 1);
        if prev.contains(cs[n - 1]) {
            prev
        } else {
            prev.push(cs[n - 1])
        }
    }
}

/// What a parsed shape compiles to.
pub open spec fn compile_shape(s: ShapeV) -> CompiledV {
    match s {
        ShapeV::Node(n) => CompiledV {
            id: n.id,
            path: None,
            targets: n.targets,
            property_shapes: n.property_shapes,
            components: Seq::empty(),
        },
        ShapeV::Property(p) => CompiledV {
            id: p.id,
            path: Some(p.path),
            targets: p.targets,
            property_shapes: p.property_shapes,
            components: dedup_components(p.components, p.components.len() as int),
        },
    }
}

pub open spec fn compile_all(s: Seq<ShapeV>) -> Seq<CompiledV> {
    s.map_values(|x: ShapeV| compile_shape(x))
}

pub open spec fn compiled_view(s: Seq<CompiledShape>) -> Seq<CompiledV> {
    s.map_values(|x: CompiledShape| x@)
}

pub open spec fn compiled_ids(s: Seq<CompiledV>) -> Seq<TermV> {
    s.map_values(|x: CompiledV| x.id)
}

/// The first of the first `n` compiled shapes whose identifier is `id`.
pub open spec fn find_upto(ss: Seq<CompiledV>, id: TermV, n: int) -> Option<CompiledV>
    decreases n,
{
    if n <= 0 {
        None
    } else {
        match find_upto(ss, id, n - 1) {
            Some(x) => Some(x),
            None => if ss[n - 1].id == id {
                Some(ss[n - 1])
            } else {
                None
            },
        }
    }
}

/// The compiled shape whose identifier is `id`, if any.
pub open spec fn find_shape(ss: Seq<CompiledV>, id: TermV) -> Option<CompiledV> {
    find_upto(ss, id, ss.len() as int)
}

proof fn lemma_find_stable(ss: Seq<CompiledV>, id: TermV, i: int, n: int)
    requires
        0 <= i <= n,
        find_upto(ss, id, i) is Some,
    ensures
        find_upto(ss, id, n) == find_upto(ss, id, i),
    decreases n - i,
{
    if n > i {
        lemma_find_stable(ss, id, i, n - 1);
    }
}

/// The compiled shapes graph: one compiled shape per identifier.
#[derive(Debug)]
pub struct CompiledSchema {
    shapes: Vec<CompiledShape>,
}

impl View for CompiledSchema {
    type V = Seq<CompiledV>;

    closed spec fn view(&self) -> Seq<CompiledV> {
        compiled_view(self.shapes@)
    }
}

fn terms_eq(a: &Vec<Term>, b: &Vec<Term>) -> (r: bool)
    ensures
        r == (terms_view(a@) == terms_view(b@)),
{
    if a.len() != b.len() {
        assert(terms_view(a@).len() != terms_view(b@).len());
        return false;
    }
    let mut i: usize = 0;
    while i < a.len()
        invariant
            0 <= i <= a@.len(),
            a@.len() == b@.len(),
            forall|k: int| 0 <= k < i ==> a@[k]@ == b@[k]@,
        decreases a.len() - i,
    {
        if a[i] != b[i] {
            assert(terms_view(a@)[i as int] != terms_view(b@)[i as int]);
            return false;
        }
        i += 1;
    }
    assert(terms_view(a@) =~= terms_view(b@));
    true
}

/// Whether two components have the same view.
pub fn component_eq(a: &Component, b: &Component) -> (r: bool)
    ensures
        r == (a@ == b@),
{
    match (a, b) {
        (Component::MinCount(x), Component::MinCount(y)) => x == y,
        (Component::MaxCount(x), Component::MaxCount(y)) => x == y,
        (Component::Datatype(x), Component::Datatype(y)) => x.eq(y),
        (Component::Class(x), Component::Class(y)) => x == y,
        (Component::NodeKind(x), Component::NodeKind(y)) => x == y,
        (Component::HasValue(x), Component::HasValue(y)) => x == y,
        (Component::In(x), Component::In(y)) => terms_eq(x, y),
        (Component::LessThan(SHACLPath::Predicate(x)), Component::LessThan(SHACLPath::Predicate(y))) => x.eq(y),
        (Component::UniqueLang(x), Component::UniqueLang(y)) => x == y,
        _ => false,
    }
}

fn contains_component(v: &Vec<Component>, c: &Component) -> (r: bool)
    ensures
        r == components_view(v@).contains(c@),
{
    let mut i: usize = 0;
    while i < v.len()
        invariant
            0 <= i <= v@.len(),
            forall|k: int| 0 <= k < i ==> v@[k]@ != c@,
        decreases v.len() - i,
    {
        if component_eq(&v[i], c) {
            assert(components_view(v@)[i as int] == c@);
            return true;
        }
        i += 1;
    }
    false
}

fn dedup(cs: &Vec<Component>) -> (r: Vec<Component>)
    ensures
        components_view(r@) == dedup_components(components_view(cs@), cs@.len() as int),
{
    let ghost cv = components_view(cs@);
    let mut out: Vec<Component> = Vec::new();
    assert(components_view(out@) =~= Seq::<ComponentV>::empty());
    let mut i: usize = 0;
    while i < cs.len()
        invariant
            0 <= i <= cs@.len(),
            cv == components_view(cs@),
            components_view(out@) == dedup_components(cv, i as int),
        decreases cs.len() - i,
    {
        if !contains_component(&out, &cs[i]) {
            let ghost before = components_view(out@);
            let c = cs[i].duplicate();
            out.push(c);
            assert(components_view(out@) =~= before.push(cv[i as int]));
        }
        i += 1;
    }
    out
}

fn clone_targets(v: &Vec<Target>) -> (r: Vec<Target>)
    ensures
        targets_view(r@) == targets_view(v@),
{
    let mut r: Vec<Target> = Vec::new();
    let mut i: usize = 0;
    while i < v.len()
        invariant
            0 <= i <= v@.len(),
            targets_view(r@) == targets_view(v@.take(i as int)),
        decreases v.len() - i,
    {
        r.push(v[i].clone());
        assert(targets_view(v@.take(i + 1)) =~= targets_view(v@.take(i as int)).push(v@[i as int]@));
        assert(targets_view(r@) =~= targets_view(v@.take(i as int)).push(v@[i as int]@));
        i += 1;
    }
    assert(v@.take(i as int) =~= v@);
    r
}

/// Compiles one parsed shape.
pub fn compile_one(s: &ShaclShape) -> (r: CompiledShape)
    ensures
        r@ == compile_shape(s@),
{
    match s {
        ShaclShape::NodeShape(n) => {
            let r = CompiledShape {
                id: n.id.clone(),
                path: None,
                targets: clone_targets(&n.targets),
                property_shapes: clone_terms(&n.property_shapes),
                components: Vec::new(),
            };
            assert(components_view(r.components@) =~= Seq::<ComponentV>::empty());
            r
        },
        ShaclShape::PropertyShape(p) => CompiledShape {
            id: p.id.clone(),
            path: Some(p.path.clone()),
            targets: clone_targets(&p.targets),
            property_shapes: clone_terms(&p.property_shapes),
            components: dedup(&p.components),
        },
    }
}

impl CompiledSchema {
    pub open spec fn wf(&self) -> bool {
        compiled_ids(self@).no_duplicates()
    }

    /// Compiles every shape of `schema`, in order. Nested shapes are not
    /// followed, so each identifier is compiled once, cycles or not.
    pub fn compile(schema: &Schema) -> (r: CompiledSchema)
        requires
            schema.wf(),
        ensures
            r@ == compile_all(schema@),
            r.wf(),
    {
        let shapes = schema.shapes();
        let mut out: Vec<CompiledShape> = Vec::new();
        let mut i: usize = 0;
        while i < shapes.len()
            invariant
                0 <= i <= shapes@.len(),
                crate::shacl::shapes_view(shapes@) == schema@,
                compiled_view(out@) == compile_all(schema@).take(i as int),
            decreases shapes.len() - i,
        {
            let c = compile_one(&shapes[i]);
            let ghost before = compiled_view(out@);
            assert(schema@[i as int] == shapes@[i as int]@);
            out.push(c);
            assert(compiled_view(out@) =~= before.push(c@));
            assert(compile_all(schema@).take(i + 1) =~= compile_all(schema@).take(i as int).push(
                compile_shape(schema@[i as int]),
            ));
            i += 1;
        }
        assert(compile_all(schema@).take(i as int) =~= compile_all(schema@));
        let r = CompiledSchema { shapes: out };
        proof {
            lemma_compiled_ids(schema@);
        }
        r
    }

    /// The compiled shapes, in the order of the schema.
    pub fn shapes(&self) -> (r: &Vec<CompiledShape>)
        ensures
            compiled_view(r@) == self@,
    {
        &self.shapes
    }

    /// The compiled shape with identifier `id`, if any.
    pub fn get(&self, id: &Term) -> (r: Option<&CompiledShape>)
        ensures
            match r {
                Some(s) => s@.id == id@ && self@.contains(s@) && find_shape(self@, id@) == Some(s@),
                None => !compiled_ids(self@).contains(id@) && find_shape(self@, id@) is None,
            },
    {
        let mut i: usize = 0;
        while i < self.shapes.len()
            invariant
                0 <= i <= self.shapes@.len(),
                forall|k: int| 0 <= k < i ==> self.shapes@[k]@.id != id@,
                find_upto(self@, id@, i as int) is None,
            decreases self.shapes.len() - i,
        {
            assert(self@[i as int] == self.shapes@[i as int]@);
            if self.shapes[i].id == *id {
                proof {
                    lemma_find_stable(self@, id@, i + 1, self@.len() as int);
                }
                return Some(&self.shapes[i]);
            }
            i += 1;
        }
        proof {
            assert forall|k: int| 0 <= k < compiled_ids(self@).len() implies compiled_ids(self@)[k] != id@ by {
                assert(self@[k] == self.shapes@[k]@);
            }
        }
        None
    }
}

proof fn lemma_compiled_ids(s: Seq<ShapeV>)
    ensures
        compiled_ids(compile_all(s)) == ids_of(s),
{
    assert(compiled_ids(compile_all(s)) =~= ids_of(s));
}

/// Compilation gives exactly one compiled shape per identifier of the
/// shapes graph, whatever references the shapes make to each other,
/// cycles included: nested shapes stay identifiers and are not followed.
pub proof fn lemma_one_entry_per_identifier(s: Seq<ShapeV>)
    requires
        ids_of(s).no_duplicates(),
    ensures
        compiled_ids(compile_all(s)).no_duplicates(),
        forall|n: TermV| compiled_ids(compile_all(s)).contains(n) <==> ids_of(s).contains(n),
        compile_all(s).len() == s.len(),
{
    lemma_compiled_ids(s);
}

} // verus!
