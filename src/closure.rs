//! Class membership through `rdf:type` and the reflexive-transitive closure
//! of `rdfs:subClassOf`, walked in-process.

use vstd::prelude::*;
use crate::graph::{contains_term, has_triple, terms_view, SRDFGraph, TripleV};
use crate::term::{Term, TermV};
use crate::vocab::{rdf_type, rdf_type_v, subclass_of, subclass_of_v};

verus! {

/// `path` is a chain of `rdfs:subClassOf` edges of `g` (of length zero or more).
pub open spec fn is_subclass_path(g: Seq<TripleV>, path: Seq<TermV>) -> bool {
    &&& path.len() >= 1
    &&& forall|i: int|
        0 <= i < path.len() - 1 ==> #[trigger] has_triple(g, path[i], subclass_of_v(), path[i + 1])
}

/// `b` is reached from `a` by zero or more `rdfs:subClassOf` edges: the
/// property path `rdfs:subClassOf*`.
pub open spec fn subclass_star(g: Seq<TripleV>, a: TermV, b: TermV) -> bool {
    exists|path: Seq<TermV>| is_subclass_path(g, path) && path[0] == a && path.last() == b
}

/// `v` is an instance of `c`: the property path `rdf:type/rdfs:subClassOf*`
/// leads from `v` to `c`.
pub open spec fn instance_of(g: Seq<TripleV>, v: TermV, c: TermV) -> bool {
    exists|t: TermV| has_triple(g, v, rdf_type_v(), t) && subclass_star(g, t, c)
}

proof fn lemma_instance_extend(g: Seq<TripleV>, v: TermV, a: TermV, b: TermV)
    requires
        instance_of(g, v, a),
        has_triple(g, a, subclass_of_v(), b),
    ensures
        instance_of(g, v, b),
{
    let t = choose|t: TermV| has_triple(g, v, rdf_type_v(), t) && subclass_star(g, t, a);
    lemma_star_extend(g, t, a, b);
}

proof fn lemma_star_refl(g: Seq<TripleV>, a: TermV)
    ensures
        subclass_star(g, a, a),
{
    let path = seq![a];
    assert(is_subclass_path(g, path) && path[0] == a && path.last() == a);
}

proof fn lemma_star_extend(g: Seq<TripleV>, t: TermV, a: TermV, b: TermV)
    requires
        subclass_star(g, t, a),
        has_triple(g, a, subclass_of_v(), b),
    ensures
        subclass_star(g, t, b),
{
    let path = choose|path: Seq<TermV>| is_subclass_path(g, path) && path[0] == t && path.last() == a;
    let p2 = path.push(b);
    assert forall|i: int| 0 <= i < p2.len() - 1 implies #[trigger] has_triple(
        g,
        p2[i],
        subclass_of_v(),
        p2[i + 1],
    ) by {
        if i < path.len() - 1 {
            assert(has_triple(g, path[i], subclass_of_v(), path[i + 1]));
        }
    }
    assert(is_subclass_path(g, p2) && p2[0] == t && p2.last() == b);
}

proof fn lemma_closed_path(g: Seq<TripleV>, vis: Seq<TermV>, path: Seq<TermV>)
    requires
        is_subclass_path(g, path),
        vis.contains(path[0]),
        forall|k: int, o: TermV|
            0 <= k < vis.len() && #[trigger] has_triple(g, vis[k], subclass_of_v(), o)
                ==> vis.contains(o),
    ensures
        vis.contains(path.last()),
    decreases path.len(),
{
    if path.len() > 1 {
        let prefix = path.drop_last();
        assert(is_subclass_path(g, prefix)) by {
            assert forall|i: int| 0 <= i < prefix.len() - 1 implies #[trigger] has_triple(
                g,
                prefix[i],
                subclass_of_v(),
                prefix[i + 1],
            ) by {
                assert(has_triple(g, path[i], subclass_of_v(), path[i + 1]));
            }
        }
        lemma_closed_path(g, vis, prefix);
        let k = choose|k: int| 0 <= k < vis.len() && vis[k] == prefix.last();
        let i = path.len() - 2;
        assert(has_triple(g, path[i], subclass_of_v(), path[i + 1]));
        assert(has_triple(g, vis[k], subclass_of_v(), path.last()));
    }
}

proof fn lemma_bounded(vis: Seq<TermV>, cands: Seq<TermV>)
    requires
        vis.no_duplicates(),
        forall|k: int| 0 <= k < vis.len() ==> cands.contains(#[trigger] vis[k]),
    ensures
        vis.len() <= cands.len(),
{
    vis.unique_seq_to_set();
    cands.lemma_cardinality_of_set();
    assert(vis.to_set().subset_of(cands.to_set()));
    vstd::set_lib::lemma_len_subset(vis.to_set(), cands.to_set());
}

/// The objects of all triples of `g`, in order.
pub open spec fn all_objects(g: Seq<TripleV>) -> Seq<TermV> {
    g.map_values(|t: TripleV| t.o)
}

impl SRDFGraph {
    /// Whether `node` is an instance of `class`: it has a type from which a
    /// chain of zero or more `rdfs:subClassOf` edges leads to `class`.
    pub fn is_instance_of(&self, node: &Term, class: &Term) -> (r: bool)
        ensures
            r == instance_of(self@, node@, class@),
    {
        let ghost g = self@;
        let types = self.objects_for_subject_predicate(node, rdf_type());
        let ghost tv = terms_view(types@);
        let ghost cands = tv + all_objects(g);
        let mut visited: Vec<Term> = Vec::new();
        let mut j: usize = 0;
        while j < types.len()
            invariant
                0 <= j <= types.len(),
                g == self@,
                tv == terms_view(types@),
                cands == tv + all_objects(g),
                forall|o: TermV| tv.contains(o) <==> has_triple(g, node@, rdf_type_v(), o),
                terms_view(visited@).no_duplicates(),
                forall|k: int| 0 <= k < j ==> terms_view(visited@).contains(#[trigger] tv[k]),
                forall|k: int|
                    0 <= k < visited@.len() ==> tv.contains(#[trigger] terms_view(visited@)[k]),
            decreases types.len() - j,
        {
            let ghost before = terms_view(visited@);
            if !contains_term(&visited, &types[j]) {
                visited.push(types[j].clone());
                assert(terms_view(visited@) =~= before.push(tv[j as int]));
                assert forall|k: int| 0 <= k < j implies terms_view(visited@).contains(
                    #[trigger] tv[k],
                ) by {
                    let m = choose|m: int| 0 <= m < before.len() && before[m] == tv[k];
                    assert(terms_view(visited@)[m] == tv[k]);
                }
                assert(terms_view(visited@)[before.len() as int] == tv[j as int]);
            }
            j += 1;
        }
        proof {
            let vis = terms_view(visited@);
            assert forall|k: int| 0 <= k < vis.len() implies cands.contains(#[trigger] vis[k])
                && instance_of(g, node@, vis[k]) by {
                let q = choose|q: int| 0 <= q < tv.len() && tv[q] == vis[k];
                assert(cands[q] == vis[k]);
                lemma_star_refl(g, vis[k]);
            }
            lemma_bounded(vis, cands);
        }
        let mut i: usize = 0;
        while i < visited.len()
            invariant
                0 <= i <= visited@.len(),
                g == self@,
                cands == tv + all_objects(g),
                forall|o: TermV| tv.contains(o) <==> has_triple(g, node@, rdf_type_v(), o),
                terms_view(visited@).no_duplicates(),
                forall|k: int| 0 <= k < tv.len() ==> terms_view(visited@).contains(#[trigger] tv[k]),
                forall|k: int|
                    0 <= k < visited@.len() ==> cands.contains(#[trigger] terms_view(visited@)[k]),
                forall|k: int|
                    0 <= k < visited@.len() ==> instance_of(
                        g,
                        node@,
                        #[trigger] terms_view(visited@)[k],
                    ),
                forall|k: int, o: TermV|
                    0 <= k < i && #[trigger] has_triple(
                        g,
                        terms_view(visited@)[k],
                        subclass_of_v(),
                        o,
                    ) ==> terms_view(visited@).contains(o),
                visited@.len() <= cands.len(),
            decreases cands.len() - i,
        {
            let supers = self.objects_for_subject_predicate(&visited[i], subclass_of());
            let ghost cur = terms_view(visited@)[i as int];
            let mut m: usize = 0;
            while m < supers.len()
                invariant
                    0 <= m <= supers.len(),
                    0 <= i < visited@.len(),
                    g == self@,
                    cands == tv + all_objects(g),
                    cur == terms_view(visited@)[i as int],
                    forall|o: TermV|
                        terms_view(supers@).contains(o) <==> has_triple(g, cur, subclass_of_v(), o),
                    forall|o: TermV| tv.contains(o) <==> has_triple(g, node@, rdf_type_v(), o),
                    terms_view(visited@).no_duplicates(),
                    forall|k: int|
                        0 <= k < tv.len() ==> terms_view(visited@).contains(#[trigger] tv[k]),
                    forall|k: int|
                        0 <= k < visited@.len() ==> cands.contains(
                            #[trigger] terms_view(visited@)[k],
                        ),
                    forall|k: int|
                        0 <= k < visited@.len() ==> instance_of(
                            g,
                            node@,
                            #[trigger] terms_view(visited@)[k],
                        ),
                    forall|k: int, o: TermV|
                        0 <= k < i && #[trigger] has_triple(
                            g,
                            terms_view(visited@)[k],
                            subclass_of_v(),
                            o,
                        ) ==> terms_view(visited@).contains(o),
                    forall|k: int|
                        0 <= k < m ==> terms_view(visited@).contains(
                            #[trigger] terms_view(supers@)[k],
                        ),
                    visited@.len() <= cands.len(),
                decreases supers.len() - m,
            {
                let ghost before = terms_view(visited@);
                let ghost sup = terms_view(supers@)[m as int];
                if !contains_term(&visited, &supers[m]) {
                    proof {
                        assert(terms_view(supers@).contains(sup));
                        assert(has_triple(g, cur, subclass_of_v(), sup));
                        lemma_instance_extend(g, node@, cur, sup);
                        let w = choose|w: int| 0 <= w < g.len() && g[w] == TripleV { s: cur, p: subclass_of_v(), o: sup };
                        assert(all_objects(g)[w] == sup);
                        assert(cands[tv.len() + w] == sup);
                    }
                    visited.push(supers[m].clone());
                    proof {
                        let after = terms_view(visited@);
                        assert(after =~= before.push(sup));
                        assert forall|x: TermV| before.contains(x) implies after.contains(x) by {
                            let q = choose|q: int| 0 <= q < before.len() && before[q] == x;
                            assert(after[q] == x);
                        }
                        assert(after[before.len() as int] == sup);
                        assert forall|k: int| 0 <= k < after.len() implies cands.contains(#[trigger] after[k]) by {
                            if k < before.len() {
                                assert(after[k] == before[k]);
                            }
                        }
                        lemma_bounded(after, cands);
                    }
                }
                m += 1;
            }
            proof {
                let vis = terms_view(visited@);
                assert forall|o: TermV| has_triple(g, cur, subclass_of_v(), o) implies vis.contains(o) by {
                    assert(terms_view(supers@).contains(o));
                    let q = choose|q: int|
                        0 <= q < terms_view(supers@).len() && terms_view(supers@)[q] == o;
                    assert(terms_view(visited@).contains(terms_view(supers@)[q]));
                }
            }
            i += 1;
        }
        let found = contains_term(&visited, class);
        proof {
            let vis = terms_view(visited@);
            if found {
                let k = choose|k: int| 0 <= k < vis.len() && vis[k] == class@;
                assert(instance_of(g, node@, vis[k]));
            }
            if instance_of(g, node@, class@) {
                let t = choose|t: TermV| has_triple(g, node@, rdf_type_v(), t) && subclass_star(g, t, class@);
                let path = choose|path: Seq<TermV>| is_subclass_path(g, path) && path[0] == t && path.last() == class@;
                assert(tv.contains(t));
                let q = choose|q: int| 0 <= q < tv.len() && tv[q] == t;
                assert(vis.contains(tv[q]));
                lemma_closed_path(g, vis, path);
            }
        }
        found
    }
}

} // verus!
