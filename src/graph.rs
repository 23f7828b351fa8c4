//! An in-memory RDF graph: a set of triples with lookups by pattern.

use vstd::prelude::*;
use crate::prefixmap::{iri_of, PrefixMap, PrefixMapError};
use crate::term::{Term, TermV};
use crate::vocab::{rdf_type, rdf_type_v};

verus! {

/// The view of a triple.
pub struct TripleV {
    pub s: TermV,
    pub p: Seq<char>,
    pub o: TermV,
}

/// A triple: subject, predicate IRI, object.
#[derive(Debug)]
pub struct Triple {
    pub subject: Term,
    pub predicate: String,
    pub object: Term,
}

impl View for Triple {
    type V = TripleV;

    open spec fn view(&self) -> TripleV {
        TripleV { s: self.subject@, p: self.predicate@, o: self.object@ }
    }
}

impl Clone for Triple {
    fn clone(&self) -> (r: Self)
        ensures
            r == *self,
    {
        Triple {
            subject: self.subject.clone(),
            predicate: self.predicate.clone(),
            object: self.object.clone(),
        }
    }
}

pub open spec fn terms_view(s: Seq<Term>) -> Seq<TermV> {
    s.map_values(|t: Term| t@)
}

pub open spec fn triples_view(s: Seq<Triple>) -> Seq<TripleV> {
    s.map_values(|t: Triple| t@)
}

pub open spec fn has_triple(g: Seq<TripleV>, s: TermV, p: Seq<char>, o: TermV) -> bool {
    g.contains(TripleV { s, p, o })
}

/// The objects of the triples with subject `s` and predicate `p`, in the order of `g`.
pub open spec fn objects_of(g: Seq<TripleV>, s: TermV, p: Seq<char>) -> Seq<TermV>
    decreases g.len(),
{
    if g.len() == 0 {
        Seq::empty()
    } else {
        let prev = objects_of(g.drop_last(), s, p);
        if g.last().s == s && g.last().p == p {
            prev.push(g.last().o)
        } else {
            prev
        }
    }
}

/// The subjects of the triples with predicate `p` and object `o`, in the order of `g`.
pub open spec fn subjects_of(g: Seq<TripleV>, p: Seq<char>, o: TermV) -> Seq<TermV>
    decreases g.len(),
{
    if g.len() == 0 {
        Seq::empty()
    } else {
        let prev = subjects_of(g.drop_last(), p, o);
        if g.last().p == p && g.last().o == o {
            prev.push(g.last().s)
        } else {
            prev
        }
    }
}

/// The triples with predicate `p`, in the order of `g`.
pub open spec fn with_predicate(g: Seq<TripleV>, p: Seq<char>) -> Seq<TripleV>
    decreases g.len(),
{
    if g.len() == 0 {
        Seq::empty()
    } else {
        let prev = with_predicate(g.drop_last(), p);
        if g.last().p == p {
            prev.push(g.last())
        } else {
            prev
        }
    }
}

pub proof fn lemma_objects_of(g: Seq<TripleV>, s: TermV, p: Seq<char>)
    ensures
        forall|o: TermV| objects_of(g, s, p).contains(o) <==> has_triple(g, s, p, o),
    decreases g.len(),
{
    if g.len() > 0 {
        lemma_objects_of(g.drop_last(), s, p);
        let prev = objects_of(g.drop_last(), s, p);
        assert forall|o: TermV| objects_of(g, s, p).contains(o) <==> has_triple(g, s, p, o) by {
            if has_triple(g, s, p, o) {
                let k = choose|k: int| 0 <= k < g.len() && g[k] == TripleV { s, p, o };
                if k < g.len() - 1 {
                    assert(g.drop_last()[k] == g[k]);
                    assert(has_triple(g.drop_last(), s, p, o));
                    let j = choose|j: int| 0 <= j < prev.len() && prev[j] == o;
                    if g.last().s == s && g.last().p == p {
                        assert(prev.push(g.last().o)[j] == o);
                    }
                } else {
                    assert(prev.push(g.last().o)[prev.len() as int] == o);
                }
            }
            if objects_of(g, s, p).contains(o) {
                if prev.contains(o) {
                    assert(has_triple(g.drop_last(), s, p, o));
                    let k = choose|k: int|
                        0 <= k < g.drop_last().len() && g.drop_last()[k] == TripleV { s, p, o };
                    assert(g[k] == g.drop_last()[k]);
                } else {
                    let j = choose|j: int| 0 <= j < objects_of(g, s, p).len() && objects_of(g, s, p)[j] == o;
                    if j < prev.len() {
                        assert(prev[j] == o);
                    }
                    assert(g[g.len() - 1] == TripleV { s, p, o });
                }
            }
        }
    }
}

pub proof fn lemma_subjects_of(g: Seq<TripleV>, p: Seq<char>, o: TermV)
    ensures
        forall|s: TermV| subjects_of(g, p, o).contains(s) <==> has_triple(g, s, p, o),
    decreases g.len(),
{
    if g.len() > 0 {
        lemma_subjects_of(g.drop_last(), p, o);
        let prev = subjects_of(g.drop_last(), p, o);
        assert forall|s: TermV| subjects_of(g, p, o).contains(s) <==> has_triple(g, s, p, o) by {
            if has_triple(g, s, p, o) {
                let k = choose|k: int| 0 <= k < g.len() && g[k] == TripleV { s, p, o };
                if k < g.len() - 1 {
                    assert(g.drop_last()[k] == g[k]);
                    assert(has_triple(g.drop_last(), s, p, o));
                    let j = choose|j: int| 0 <= j < prev.len() && prev[j] == s;
                    if g.last().p == p && g.last().o == o {
                        assert(prev.push(g.last().s)[j] == s);
                    }
                } else {
                    assert(prev.push(g.last().s)[prev.len() as int] == s);
                }
            }
            if subjects_of(g, p, o).contains(s) {
                if prev.contains(s) {
                    assert(has_triple(g.drop_last(), s, p, o));
                    let k = choose|k: int|
                        0 <= k < g.drop_last().len() && g.drop_last()[k] == TripleV { s, p, o };
                    assert(g[k] == g.drop_last()[k]);
                } else {
                    let j = choose|j: int| 0 <= j < subjects_of(g, p, o).len() && subjects_of(g, p, o)[j] == s;
                    if j < prev.len() {
                        assert(prev[j] == s);
                    }
                    assert(g[g.len() - 1] == TripleV { s, p, o });
                }
            }
        }
    }
}

/// Whether `t` occurs in `v`, comparing terms by their views.
pub fn contains_term(v: &Vec<Term>, t: &Term) -> (r: bool)
    ensures
        r == terms_view(v@).contains(t@),
{
    let mut i: usize = 0;
    while i < v.len()
        invariant
            0 <= i <= v.len(),
            forall|k: int| 0 <= k < i ==> v@[k]@ != t@,
        decreases v.len() - i,
    {
        if v[i] == *t {
            assert(terms_view(v@)[i as int] == t@);
            return true;
        }
        i += 1;
    }
    false
}

/// A graph: a set of triples, kept without repetition in the order of
/// insertion, with the prefixes it declares.
#[derive(Debug)]
pub struct SRDFGraph {
    triples: Vec<Triple>,
    pm: PrefixMap,
}

impl View for SRDFGraph {
    type V = Seq<TripleV>;

    closed spec fn view(&self) -> Seq<TripleV> {
        triples_view(self.triples@)
    }
}

impl SRDFGraph {
    pub open spec fn wf(&self) -> bool {
        self@.no_duplicates() && self.prefixes_wf()
    }

    pub closed spec fn prefixes_wf(&self) -> bool {
        self.pm.wf()
    }

    /// The prefix declarations of the graph.
    pub closed spec fn prefixes(&self) -> Seq<(Seq<char>, Seq<char>)> {
        self.pm@
    }

    /// An empty graph.
    pub fn new() -> (r: SRDFGraph)
        ensures
            r@ == Seq::<TripleV>::empty(),
            r.wf(),
            forall|a: Seq<char>| iri_of(r.prefixes(), a) is None,
    {
        let r = SRDFGraph { triples: Vec::new(), pm: PrefixMap::new() };
        proof {
            assert(r@ =~= Seq::<TripleV>::empty());
        }
        r
    }

    /// The number of triples.
    pub fn len(&self) -> (r: usize)
        ensures
            r == self@.len(),
    {
        self.triples.len()
    }

    /// Whether the graph holds the triple.
    pub fn contains_triple(&self, s: &Term, p: &String, o: &Term) -> (r: bool)
        ensures
            r == has_triple(self@, s@, p@, o@),
    {
        let mut i: usize = 0;
        while i < self.triples.len()
            invariant
                0 <= i <= self.triples.len(),
                self@ == triples_view(self.triples@),
                forall|k: int| 0 <= k < i ==> self@[k] != (TripleV { s: s@, p: p@, o: o@ }),
            decreases self.triples.len() - i,
        {
            let t = &self.triples[i];
            if t.subject == *s && t.predicate.eq(p) && t.object == *o {
                assert(self@[i as int] == (TripleV { s: s@, p: p@, o: o@ }));
                return true;
            }
            i += 1;
        }
        false
    }

    /// Adds a triple; a triple already present is not added twice.
    pub fn add_triple(&mut self, s: Term, p: String, o: Term)
        requires
            old(self).wf(),
        ensures
            final(self).wf(),
            has_triple(old(self)@, s@, p@, o@) ==> final(self)@ == old(self)@,
            !has_triple(old(self)@, s@, p@, o@) ==> final(self)@ == old(self)@.push(
                TripleV { s: s@, p: p@, o: o@ },
            ),
    {
        if !self.contains_triple(&s, &p, &o) {
            let t = Triple { subject: s, predicate: p, object: o };
            self.triples.push(t);
            proof {
                assert(triples_view(self.triples@) =~= triples_view(old(self).triples@).push(t@));
            }
        }
    }

    /// The objects of the triples with subject `s` and predicate `p`.
    pub fn objects_for_subject_predicate(&self, s: &Term, p: &str) -> (r: Vec<Term>)
        ensures
            terms_view(r@) == objects_of(self@, s@, p@),
            forall|o: TermV| terms_view(r@).contains(o) <==> has_triple(self@, s@, p@, o),
    {
        let ps = p.to_string();
        let mut r: Vec<Term> = Vec::new();
        let mut i: usize = 0;
        while i < self.triples.len()
            invariant
                0 <= i <= self.triples.len(),
                ps@ == p@,
                self@ == triples_view(self.triples@),
                terms_view(r@) == objects_of(self@.take(i as int), s@, p@),
            decreases self.triples.len() - i,
        {
            let t = &self.triples[i];
            assert(self@.take(i + 1).drop_last() =~= self@.take(i as int));
            if t.subject == *s && t.predicate.eq(&ps) {
                r.push(t.object.clone());
                assert(terms_view(r@) =~= objects_of(self@.take(i as int), s@, p@).push(t.object@));
            }
            i += 1;
        }
        assert(self@.take(i as int) =~= self@);
        proof {
            lemma_objects_of(self@, s@, p@);
        }
        r
    }

    /// The subjects of the triples with predicate `p` and object `o`.
    pub fn subjects_with_predicate_object(&self, p: &str, o: &Term) -> (r: Vec<Term>)
        ensures
            terms_view(r@) == subjects_of(self@, p@, o@),
            forall|s: TermV| terms_view(r@).contains(s) <==> has_triple(self@, s, p@, o@),
    {
        let ps = p.to_string();
        let mut r: Vec<Term> = Vec::new();
        let mut i: usize = 0;
        while i < self.triples.len()
            invariant
                0 <= i <= self.triples.len(),
                ps@ == p@,
                self@ == triples_view(self.triples@),
                terms_view(r@) == subjects_of(self@.take(i as int), p@, o@),
            decreases self.triples.len() - i,
        {
            let t = &self.triples[i];
            assert(self@.take(i + 1).drop_last() =~= self@.take(i as int));
            if t.predicate.eq(&ps) && t.object == *o {
                r.push(t.subject.clone());
                assert(terms_view(r@) =~= subjects_of(self@.take(i as int), p@, o@).push(
                    t.subject@,
                ));
            }
            i += 1;
        }
        assert(self@.take(i as int) =~= self@);
        proof {
            lemma_subjects_of(self@, p@, o@);
        }
        r
    }

    /// The triples with predicate `p`.
    pub fn triples_with_predicate(&self, p: &str) -> (r: Vec<Triple>)
        ensures
            triples_view(r@) == with_predicate(self@, p@),
    {
        let ps = p.to_string();
        let mut r: Vec<Triple> = Vec::new();
        let mut i: usize = 0;
        while i < self.triples.len()
            invariant
                0 <= i <= self.triples.len(),
                ps@ == p@,
                self@ == triples_view(self.triples@),
                triples_view(r@) == with_predicate(self@.take(i as int), p@),
            decreases self.triples.len() - i,
        {
            let t = &self.triples[i];
            assert(self@.take(i + 1).drop_last() =~= self@.take(i as int));
            if t.predicate.eq(&ps) {
                r.push(t.clone());
                assert(triples_view(r@) =~= with_predicate(self@.take(i as int), p@).push(t@));
            }
            i += 1;
        }
        assert(self@.take(i as int) =~= self@);
        r
    }
}


pub open spec fn strings_view(s: Seq<String>) -> Seq<Seq<char>> {
    s.map_values(|x: String| x@)
}

/// The predicates of the arcs of a list of (predicate, terms) pairs.
pub open spec fn arc_predicates(a: Seq<(String, Vec<Term>)>) -> Seq<Seq<char>> {
    a.map_values(|x: (String, Vec<Term>)| x.0@)
}

/// The predicates of the first `n` triples with subject `s`, in order and
/// with repetition, that `preds` does not hold.
pub open spec fn unlisted(g: Seq<TripleV>, s: TermV, preds: Seq<Seq<char>>, n: int) -> Seq<Seq<char>>
    decreases n,
{
    if n <= 0 {
        Seq::empty()
    } else {
        let prev = unlisted(g, s, preds, n - 1);
        if g[n - 1].s == s && !preds.contains(g[n - 1].p) {
            prev.push(g[n - 1].p)
        } else {
            prev
        }
    }
}

/// The first `n` triples of `ts`, each kept once, in order of first occurrence.
pub open spec fn dedup_triples(ts: Seq<TripleV>, n: int) -> Seq<TripleV>
    decreases n,
{
    if n <= 0 {
        Seq::empty()
    } else {
        let prev = dedup_triples(ts, n - 1);
        if prev.contains(ts[n - 1]) {
            prev
        } else {
            prev.push(ts[n - 1])
        }
    }
}

/// `g` without the triple `t`.
pub open spec fn without(g: Seq<TripleV>, t: TripleV) -> Seq<TripleV>
    decreases g.len(),
{
    if g.len() == 0 {
        Seq::empty()
    } else if g.last() == t {
        without(g.drop_last(), t)
    } else {
        without(g.drop_last(), t).push(g.last())
    }
}

fn contains_string(v: &Vec<String>, s: &String) -> (r: bool)
    ensures
        r == strings_view(v@).contains(s@),
{
    let mut i: usize = 0;
    while i < v.len()
        invariant
            0 <= i <= v.len(),
            forall|k: int| 0 <= k < i ==> v@[k]@ != s@,
        decreases v.len() - i,
    {
        if v[i].eq(s) {
            assert(strings_view(v@)[i as int] == s@);
            return true;
        }
        i += 1;
    }
    false
}

impl SRDFGraph {
    /// The distinct predicates of the triples with subject `s`, in order of
    /// first occurrence.
    pub fn predicates_for_subject(&self, s: &Term) -> (r: Vec<String>)
        ensures
            strings_view(r@).no_duplicates(),
            forall|p: Seq<char>|
                strings_view(r@).contains(p) <==> exists|o: TermV| has_triple(self@, s@, p, o),
    {
        let mut out: Vec<String> = Vec::new();
        let mut i: usize = 0;
        while i < self.triples.len()
            invariant
                0 <= i <= self.triples.len(),
                self@ == triples_view(self.triples@),
                strings_view(out@).no_duplicates(),
                forall|p: Seq<char>|
                    strings_view(out@).contains(p) <==> exists|k: int|
                        0 <= k < i && #[trigger] self@[k].s == s@ && self@[k].p == p,
            decreases self.triples.len() - i,
        {
            let t = &self.triples[i];
            let ghost before = strings_view(out@);
            assert(self@[i as int] == t@);
            if t.subject == *s && !contains_string(&out, &t.predicate) {
                out.push(t.predicate.clone());
                assert(strings_view(out@) =~= before.push(t.predicate@));
            }
            proof {
                let after = strings_view(out@);
                assert forall|p: Seq<char>| after.contains(p) <==> exists|k: int|
                    0 <= k < i + 1 && #[trigger] self@[k].s == s@ && self@[k].p == p by {
                    if before.contains(p) {
                        let q = choose|q: int| 0 <= q < before.len() && before[q] == p;
                        assert(after[q] == p);
                        let k = choose|k: int| 0 <= k < i && #[trigger] self@[k].s == s@ && self@[k].p == p;
                        assert(self@[k].s == s@);
                    } else if after.contains(p) {
                        let q = choose|q: int| 0 <= q < after.len() && after[q] == p;
                        if q < before.len() {
                            assert(before[q] == p);
                        }
                        assert(self@[i as int].s == s@);
                    }
                    if exists|k: int| 0 <= k < i + 1 && #[trigger] self@[k].s == s@ && self@[k].p == p {
                        let k = choose|k: int| 0 <= k < i + 1 && #[trigger] self@[k].s == s@ && self@[k].p == p;
                        if k < i {
                            assert(before.contains(p));
                            let q = choose|q: int| 0 <= q < before.len() && before[q] == p;
                            assert(after[q] == p);
                        } else if !before.contains(p) {
                            assert(after[before.len() as int] == p);
                        }
                    }
                }
            }
            i += 1;
        }
        proof {
            assert forall|p: Seq<char>|
                strings_view(out@).contains(p) <==> exists|o: TermV| has_triple(self@, s@, p, o) by {
                if strings_view(out@).contains(p) {
                    let k = choose|k: int| 0 <= k < self@.len() && #[trigger] self@[k].s == s@ && self@[k].p == p;
                    assert(self@[k] == TripleV { s: s@, p, o: self@[k].o });
                    assert(has_triple(self@, s@, p, self@[k].o));
                }
                if exists|o: TermV| has_triple(self@, s@, p, o) {
                    let o = choose|o: TermV| has_triple(self@, s@, p, o);
                    let k = choose|k: int| 0 <= k < self@.len() && self@[k] == TripleV { s: s@, p, o };
                    assert(self@[k].s == s@ && self@[k].p == p);
                }
            }
        }
        out
    }

    /// The outgoing arcs of `s`: each of its predicates, once, with the
    /// objects that the predicate leads to.
    pub fn outgoing_arcs(&self, s: &Term) -> (r: Vec<(String, Vec<Term>)>)
        ensures
            arc_predicates(r@).no_duplicates(),
            forall|p: Seq<char>|
                arc_predicates(r@).contains(p) <==> exists|o: TermV| has_triple(self@, s@, p, o),
            forall|i: int|
                0 <= i < r@.len() ==> terms_view((#[trigger] r@[i]).1@) == objects_of(self@, s@, r@[i].0@),
    {
        let preds = self.predicates_for_subject(s);
        let mut out: Vec<(String, Vec<Term>)> = Vec::new();
        let mut i: usize = 0;
        while i < preds.len()
            invariant
                0 <= i <= preds@.len(),
                arc_predicates(out@) == strings_view(preds@).take(i as int),
                forall|k: int|
                    0 <= k < out@.len() ==> terms_view((#[trigger] out@[k]).1@) == objects_of(self@, s@, out@[k].0@),
            decreases preds.len() - i,
        {
            let objs = self.objects_for_subject_predicate(s, preds[i].as_str());
            let ghost before = arc_predicates(out@);
            let name = preds[i].clone();
            assert(name@ == strings_view(preds@)[i as int]);
            out.push((name, objs));
            assert(arc_predicates(out@) =~= before.push(strings_view(preds@)[i as int]));
            assert(strings_view(preds@).take(i + 1) =~= strings_view(preds@).take(i as int).push(
                strings_view(preds@)[i as int],
            ));
            i += 1;
        }
        assert(strings_view(preds@).take(i as int) =~= strings_view(preds@));
        out
    }

    /// The distinct predicates of the triples with object `o`, in order of
    /// first occurrence.
    pub fn predicates_for_object(&self, o: &Term) -> (r: Vec<String>)
        ensures
            strings_view(r@).no_duplicates(),
            forall|p: Seq<char>|
                strings_view(r@).contains(p) <==> exists|s: TermV| has_triple(self@, s, p, o@),
    {
        let mut out: Vec<String> = Vec::new();
        let mut i: usize = 0;
        while i < self.triples.len()
            invariant
                0 <= i <= self.triples.len(),
                self@ == triples_view(self.triples@),
                strings_view(out@).no_duplicates(),
                forall|p: Seq<char>|
                    strings_view(out@).contains(p) <==> exists|k: int|
                        0 <= k < i && #[trigger] self@[k].o == o@ && self@[k].p == p,
            decreases self.triples.len() - i,
        {
            let t = &self.triples[i];
            let ghost before = strings_view(out@);
            assert(self@[i as int] == t@);
            if t.object == *o && !contains_string(&out, &t.predicate) {
                out.push(t.predicate.clone());
                assert(strings_view(out@) =~= before.push(t.predicate@));
            }
            proof {
                let after = strings_view(out@);
                assert forall|p: Seq<char>| after.contains(p) <==> exists|k: int|
                    0 <= k < i + 1 && #[trigger] self@[k].o == o@ && self@[k].p == p by {
                    if before.contains(p) {
                        let q = choose|q: int| 0 <= q < before.len() && before[q] == p;
                        assert(after[q] == p);
                        let k = choose|k: int| 0 <= k < i && #[trigger] self@[k].o == o@ && self@[k].p == p;
                        assert(self@[k].o == o@);
                    } else if after.contains(p) {
                        let q = choose|q: int| 0 <= q < after.len() && after[q] == p;
                        if q < before.len() {
                            assert(before[q] == p);
                        }
                        assert(self@[i as int].o == o@);
                    }
                    if exists|k: int| 0 <= k < i + 1 && #[trigger] self@[k].o == o@ && self@[k].p == p {
                        let k = choose|k: int| 0 <= k < i + 1 && #[trigger] self@[k].o == o@ && self@[k].p == p;
                        if k < i {
                            assert(before.contains(p));
                            let q = choose|q: int| 0 <= q < before.len() && before[q] == p;
                            assert(after[q] == p);
                        } else if !before.contains(p) {
                            assert(after[before.len() as int] == p);
                        }
                    }
                }
            }
            i += 1;
        }
        proof {
            assert forall|p: Seq<char>|
                strings_view(out@).contains(p) <==> exists|s: TermV| has_triple(self@, s, p, o@) by {
                if strings_view(out@).contains(p) {
                    let k = choose|k: int| 0 <= k < self@.len() && #[trigger] self@[k].o == o@ && self@[k].p == p;
                    assert(self@[k] == TripleV { s: self@[k].s, p, o: o@ });
                    assert(has_triple(self@, self@[k].s, p, o@));
                }
                if exists|s: TermV| has_triple(self@, s, p, o@) {
                    let s = choose|s: TermV| has_triple(self@, s, p, o@);
                    let k = choose|k: int| 0 <= k < self@.len() && self@[k] == TripleV { s, p, o: o@ };
                    assert(self@[k].o == o@ && self@[k].p == p);
                }
            }
        }
        out
    }

    /// The incoming arcs of `o`: each predicate that leads to it, once, with
    /// the subjects it comes from.
    pub fn incoming_arcs(&self, o: &Term) -> (r: Vec<(String, Vec<Term>)>)
        ensures
            arc_predicates(r@).no_duplicates(),
            forall|p: Seq<char>|
                arc_predicates(r@).contains(p) <==> exists|s: TermV| has_triple(self@, s, p, o@),
            forall|i: int|
                0 <= i < r@.len() ==> terms_view((#[trigger] r@[i]).1@) == subjects_of(self@, r@[i].0@, o@),
    {
        let preds = self.predicates_for_object(o);
        let mut out: Vec<(String, Vec<Term>)> = Vec::new();
        let mut i: usize = 0;
        while i < preds.len()
            invariant
                0 <= i <= preds@.len(),
                arc_predicates(out@) == strings_view(preds@).take(i as int),
                forall|k: int|
                    0 <= k < out@.len() ==> terms_view((#[trigger] out@[k]).1@) == subjects_of(self@, out@[k].0@, o@),
            decreases preds.len() - i,
        {
            let subjects = self.subjects_with_predicate_object(preds[i].as_str(), o);
            let ghost before = arc_predicates(out@);
            let name = preds[i].clone();
            assert(name@ == strings_view(preds@)[i as int]);
            out.push((name, subjects));
            assert(arc_predicates(out@) =~= before.push(strings_view(preds@)[i as int]));
            assert(strings_view(preds@).take(i + 1) =~= strings_view(preds@).take(i as int).push(
                strings_view(preds@)[i as int],
            ));
            i += 1;
        }
        assert(strings_view(preds@).take(i as int) =~= strings_view(preds@));
        out
    }

    /// The outgoing arcs of `s` whose predicate `preds` lists, and the
    /// predicates, one per triple of `s` in order, that it does not list.
    pub fn outgoing_arcs_from_list(&self, s: &Term, preds: &Vec<String>) -> (r: (
        Vec<(String, Vec<Term>)>,
        Vec<String>,
    ))
        ensures
            arc_predicates(r.0@).no_duplicates(),
            forall|p: Seq<char>|
                arc_predicates(r.0@).contains(p) <==> (strings_view(preds@).contains(p) && exists|o: TermV|
                    has_triple(self@, s@, p, o)),
            forall|i: int|
                0 <= i < r.0@.len() ==> terms_view((#[trigger] r.0@[i]).1@) == objects_of(self@, s@, r.0@[i].0@),
            strings_view(r.1@) == unlisted(self@, s@, strings_view(preds@), self@.len() as int),
    {
        let all = self.outgoing_arcs(s);
        let ghost pv = strings_view(preds@);
        let ghost ap = arc_predicates(all@);
        let mut listed: Vec<(String, Vec<Term>)> = Vec::new();
        let mut i: usize = 0;
        while i < all.len()
            invariant
                0 <= i <= all@.len(),
                pv == strings_view(preds@),
                ap == arc_predicates(all@),
                ap.no_duplicates(),
                forall|k: int|
                    0 <= k < all@.len() ==> terms_view((#[trigger] all@[k]).1@) == objects_of(self@, s@, all@[k].0@),
                arc_predicates(listed@).no_duplicates(),
                forall|p: Seq<char>|
                    #[trigger] arc_predicates(listed@).contains(p) <==> (pv.contains(p) && ap.take(i as int).contains(p)),
                forall|k: int|
                    0 <= k < listed@.len() ==> terms_view((#[trigger] listed@[k]).1@) == objects_of(self@, s@, listed@[k].0@),
            decreases all.len() - i,
        {
            let ghost before = arc_predicates(listed@);
            let ghost name_v = ap[i as int];
            assert(ap.take(i + 1) =~= ap.take(i as int).push(name_v));
            proof {
                assert forall|p: Seq<char>| #[trigger] ap.take(i + 1).contains(p) <==> (ap.take(i as int).contains(p) || p == name_v) by {
                    if ap.take(i + 1).contains(p) {
                        let q = choose|q: int| 0 <= q < i + 1 && #[trigger] ap.take(i + 1)[q] == p;
                        if q < i {
                            assert(ap.take(i as int)[q] == p);
                        }
                    }
                    if ap.take(i as int).contains(p) {
                        let q = choose|q: int| 0 <= q < i && #[trigger] ap.take(i as int)[q] == p;
                        assert(ap.take(i + 1)[q] == p);
                    }
                    if p == name_v {
                        assert(ap.take(i + 1)[i as int] == p);
                    }
                }
                assert(!ap.take(i as int).contains(name_v)) by {
                    if ap.take(i as int).contains(name_v) {
                        let q = choose|q: int| 0 <= q < i && #[trigger] ap.take(i as int)[q] == name_v;
                        assert(ap[q] == ap[i as int]);
                    }
                }
            }
            if contains_string(preds, &all[i].0) {
                let name = all[i].0.clone();
                let objs = crate::shacl::clone_terms(&all[i].1);
                listed.push((name, objs));
                proof {
                    assert(arc_predicates(listed@) =~= before.push(name_v));
                    assert(!before.contains(name_v));
                    let after = arc_predicates(listed@);
                    assert forall|p: Seq<char>| #[trigger] after.contains(p) <==> (before.contains(p) || p == name_v) by {
                        if after.contains(p) {
                            let q = choose|q: int| 0 <= q < after.len() && after[q] == p;
                            if q < before.len() {
                                assert(before[q] == p);
                            }
                        }
                        if before.contains(p) {
                            let q = choose|q: int| 0 <= q < before.len() && before[q] == p;
                            assert(after[q] == p);
                        }
                        if p == name_v {
                            assert(after[before.len() as int] == p);
                        }
                    }
                }
            }
            i += 1;
        }
        proof {
            assert(ap.take(i as int) =~= ap);
            assert forall|p: Seq<char>|
                arc_predicates(listed@).contains(p) <==> (pv.contains(p) && exists|o: TermV|
                    has_triple(self@, s@, p, o)) by {
                assert(arc_predicates(listed@).contains(p) <==> (pv.contains(p) && ap.contains(p)));
            }
        }
        let mut rest: Vec<String> = Vec::new();
        let mut j: usize = 0;
        while j < self.triples.len()
            invariant
                0 <= j <= self.triples.len(),
                pv == strings_view(preds@),
                self@ == triples_view(self.triples@),
                strings_view(rest@) == unlisted(self@, s@, pv, j as int),
            decreases self.triples.len() - j,
        {
            let t = &self.triples[j];
            assert(self@[j as int] == t@);
            if t.subject == *s && !contains_string(preds, &t.predicate) {
                let ghost before = strings_view(rest@);
                rest.push(t.predicate.clone());
                assert(strings_view(rest@) =~= before.push(t.predicate@));
            }
            j += 1;
        }
        (listed, rest)
    }

    /// Types `node` with `type_`; a literal cannot be typed.
    pub fn add_type(&mut self, node: Term, type_: Term)
        requires
            old(self).wf(),
            !(node@ is Lit),
        ensures
            final(self).wf(),
            has_triple(old(self)@, node@, rdf_type_v(), type_@) ==> final(self)@ == old(self)@,
            !has_triple(old(self)@, node@, rdf_type_v(), type_@) ==> final(self)@ == old(self)@.push(
                TripleV { s: node@, p: rdf_type_v(), o: type_@ },
            ),
    {
        self.add_triple(node, rdf_type().to_string(), type_);
    }

    /// Declares `alias` for the namespace `iri`.
    pub fn add_prefix(&mut self, alias: &str, iri: &str)
        requires
            old(self).wf(),
        ensures
            final(self).wf(),
            final(self)@ == old(self)@,
            iri_of(final(self).prefixes(), alias@) == Some(iri@),
            forall|a: Seq<char>| a != alias@ ==> iri_of(final(self).prefixes(), a) == iri_of(old(self).prefixes(), a),
    {
        self.pm.insert(alias, iri);
    }

    /// The prefix declarations of the graph.
    pub fn prefixmap(&self) -> (r: &PrefixMap)
        ensures
            r@ == self.prefixes(),
            self.wf() ==> r.wf(),
    {
        &self.pm
    }

    /// The IRI that `prefix:local` stands for under the graph's prefixes.
    pub fn resolve_prefix_local(&self, prefix: &str, local: &str) -> (r: Result<String, PrefixMapError>)
        requires
            self.wf(),
        ensures
            match iri_of(self.prefixes(), prefix@) {
                Some(ns) => r matches Ok(iri) && iri@ == ns + local@,
                None => r matches Err(PrefixMapError::PrefixNotFound(p)) && p@ == prefix@,
            },
    {
        self.pm.resolve_prefix_local(prefix, local)
    }

    /// The graph of `triples`, each kept once, in order of first occurrence.
    pub fn from_triples(triples: Vec<Triple>) -> (r: SRDFGraph)
        ensures
            r.wf(),
            r@ == dedup_triples(triples_view(triples@), triples@.len() as int),
    {
        let ghost tv = triples_view(triples@);
        let n: usize = triples.len();
        assert(tv.len() == n);
        let mut g = SRDFGraph::new();
        assert(g@ =~= dedup_triples(tv, 0));
        let mut rest = triples;
        let mut rev: Vec<Triple> = Vec::new();
        while rest.len() > 0
            invariant
                rest@.len() + rev@.len() == tv.len(),
                tv.len() == n,
                triples_view(rest@) == tv.take(rest@.len() as int),
                forall|k: int| 0 <= k < rev@.len() ==> (#[trigger] rev@[k])@ == tv[tv.len() - 1 - k],
            decreases rest.len(),
        {
            let ghost old_rest = rest@;
            let t = rest.pop().unwrap();
            assert(t == old_rest[old_rest.len() - 1]);
            assert(triples_view(old_rest)[old_rest.len() - 1] == tv[rest@.len() as int]);
            rev.push(t);
            assert(triples_view(rest@) =~= tv.take(rest@.len() as int));
        }
        let mut i: usize = 0;
        while rev.len() > 0
            invariant
                i + rev@.len() == tv.len(),
                tv.len() == n,
                forall|k: int| 0 <= k < rev@.len() ==> (#[trigger] rev@[k])@ == tv[tv.len() - 1 - k],
                g.wf(),
                g@ == dedup_triples(tv, i as int),
            decreases rev.len(),
        {
            let t = rev.pop().unwrap();
            assert(t@ == tv[i as int]);
            g.add_triple(t.subject, t.predicate, t.object);
            i += 1;
        }
        g
    }

    /// Removes a triple; the others stay in order.
    pub fn remove_triple(&mut self, s: &Term, p: &String, o: &Term)
        requires
            old(self).wf(),
        ensures
            final(self)@ == without(old(self)@, TripleV { s: s@, p: p@, o: o@ }),
            !has_triple(final(self)@, s@, p@, o@),
            final(self).wf(),
    {
        let ghost t = TripleV { s: s@, p: p@, o: o@ };
        let ghost g = self@;
        let mut kept: Vec<Triple> = Vec::new();
        let mut i: usize = 0;
        while i < self.triples.len()
            invariant
                0 <= i <= self.triples.len(),
                g == triples_view(self.triples@),
                t == (TripleV { s: s@, p: p@, o: o@ }),
                triples_view(kept@) == without(g.take(i as int), t),
                !triples_view(kept@).contains(t),
            decreases self.triples.len() - i,
        {
            let x = &self.triples[i];
            assert(g.take(i + 1).drop_last() =~= g.take(i as int));
            assert(g.take(i + 1).last() == x@);
            if !(x.subject == *s && x.predicate.eq(p) && x.object == *o) {
                let ghost before = triples_view(kept@);
                assert(x@ != t);
                kept.push(x.clone());
                assert(triples_view(kept@) =~= before.push(x@));
                assert(!triples_view(kept@).contains(t)) by {
                    if triples_view(kept@).contains(t) {
                        let q = choose|q: int| 0 <= q < triples_view(kept@).len() && triples_view(kept@)[q] == t;
                        if q < before.len() {
                            assert(before[q] == t);
                        }
                    }
                }
            }
            i += 1;
        }
        assert(g.take(i as int) =~= g);
        proof {
            lemma_without_no_dup(g, t);
        }
        self.triples = kept;
    }
}

proof fn lemma_without_no_dup(g: Seq<TripleV>, t: TripleV)
    requires
        g.no_duplicates(),
    ensures
        without(g, t).no_duplicates(),
        forall|x: TripleV| #[trigger] without(g, t).contains(x) ==> g.contains(x),
    decreases g.len(),
{
    if g.len() > 0 {
        let rest = g.drop_last();
        assert(rest.no_duplicates());
        lemma_without_no_dup(rest, t);
        let w = without(rest, t);
        assert forall|x: TripleV| without(g, t).contains(x) implies g.contains(x) by {
            if w.contains(x) {
                let k = choose|k: int| 0 <= k < rest.len() && rest[k] == x;
                assert(g[k] == x);
            } else {
                assert(x == g.last());
                assert(g[g.len() - 1] == x);
            }
        }
        if g.last() != t {
            assert(!w.contains(g.last())) by {
                if w.contains(g.last()) {
                    let k = choose|k: int| 0 <= k < rest.len() && rest[k] == g.last();
                    assert(g[k] == g[g.len() - 1]);
                }
            }
        }
    }
}

} // verus!
