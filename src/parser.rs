//! Discovery and parsing of the shapes that a graph declares.

use vstd::prelude::*;
use crate::graph::{
    contains_term, has_triple, objects_of, terms_view, triples_view, with_predicate, SRDFGraph,
    TripleV,
};
use crate::shacl::{
    components_view, targets_view, Component, ComponentV, NodeKind, NodeShape, NodeShapeV,
    PropertyShape, PropertyShapeV, SHACLPath, Schema, ShaclShape, ShapeV, Target, TargetV, ids_of,
    shapes_view,
};
use crate::term::{Term, TermV};
use crate::vocab::{
    rdf_type, rdf_type_v, sh_node_shape, sh_node_shape_v, sh_property, sh_property_v, sh_path, sh_path_v, sh_target_class, sh_target_class_v, sh_target_node, sh_target_node_v, sh_min_count, sh_min_count_v, sh_max_count, sh_max_count_v, sh_datatype, sh_datatype_v, sh_node_kind, sh_node_kind_v, sh_class, sh_class_v, sh_has_value, sh_has_value_v, sh_unique_lang, sh_unique_lang_v, sh_less_than, sh_less_than_v, sh_iri, sh_iri_v, sh_literal, sh_literal_v, sh_blank_node, sh_blank_node_v,
};

verus! {

/// The view of a parse error.
pub enum ParseErrV {
    ExpectedInteger(TermV),
    ExpectedIri(TermV),
    ExpectedBoolean(TermV),
    UnknownNodeKind(TermV),
    ExpectedNodeKind(TermV),
    MissingPath(TermV),
    MalformedPath(TermV),
}

/// Why a shape could not be parsed; each case carries the offending term.
#[derive(Debug)]
pub enum ShaclParserError {
    /// A cardinality is not a decimal numeral that fits in 64 bits.
    ExpectedInteger(Term),
    /// A datatype or a compared path is not an IRI.
    ExpectedIri(Term),
    /// A `sh:uniqueLang` value is not `true` or `false`.
    ExpectedBoolean(Term),
    /// A `sh:nodeKind` IRI that is not one of `sh:IRI`, `sh:Literal`, `sh:BlankNode`.
    UnknownNodeKind(Term),
    /// A `sh:nodeKind` value that is not an IRI.
    ExpectedNodeKind(Term),
    /// A property shape (the term is its identifier) without `sh:path`.
    MissingPath(Term),
    /// A `sh:path` value that is not an IRI.
    MalformedPath(Term),
}

impl View for ShaclParserError {
    type V = ParseErrV;

    open spec fn view(&self) -> ParseErrV {
        match self {
            ShaclParserError::ExpectedInteger(t) => ParseErrV::ExpectedInteger(t@),
            ShaclParserError::ExpectedIri(t) => ParseErrV::ExpectedIri(t@),
            ShaclParserError::ExpectedBoolean(t) => ParseErrV::ExpectedBoolean(t@),
            ShaclParserError::UnknownNodeKind(t) => ParseErrV::UnknownNodeKind(t@),
            ShaclParserError::ExpectedNodeKind(t) => ParseErrV::ExpectedNodeKind(t@),
            ShaclParserError::MissingPath(t) => ParseErrV::MissingPath(t@),
            ShaclParserError::MalformedPath(t) => ParseErrV::MalformedPath(t@),
        }
    }
}

/// The kinds of component that the parser reads, in the order it reads them.
#[derive(Debug, Clone, Copy, PartialEq, Eq, Structural)]
pub enum ComponentTag {
    MinCount,
    MaxCount,
    Datatype,
    NodeKind,
    Class,
    HasValue,
    UniqueLang,
    LessThan,
}

pub open spec fn tag_at(k: int) -> ComponentTag {
    if k == 0 {
        ComponentTag::MinCount
    } else if k == 1 {
        ComponentTag::MaxCount
    } else if k == 2 {
        ComponentTag::Datatype
    } else if k == 3 {
        ComponentTag::NodeKind
    } else if k == 4 {
        ComponentTag::Class
    } else if k == 5 {
        ComponentTag::HasValue
    } else if k == 6 {
        ComponentTag::UniqueLang
    } else {
        ComponentTag::LessThan
    }
}

pub const N_TAGS: usize = 8;

pub open spec fn tag_predicate(tag: ComponentTag) -> Seq<char> {
    match tag {
        ComponentTag::MinCount => sh_min_count_v(),
        ComponentTag::MaxCount => sh_max_count_v(),
        ComponentTag::Datatype => sh_datatype_v(),
        ComponentTag::NodeKind => sh_node_kind_v(),
        ComponentTag::Class => sh_class_v(),
        ComponentTag::HasValue => sh_has_value_v(),
        ComponentTag::UniqueLang => sh_unique_lang_v(),
        ComponentTag::LessThan => sh_less_than_v(),
    }
}

pub open spec fn is_digit(c: char) -> bool {
    '0' <= c && c <= '9'
}

/// The value of a decimal numeral.
pub open spec fn numeral_value(s: Seq<char>) -> int
    decreases s.len(),
{
    if s.len() == 0 {
        0
    } else {
        numeral_value(s.drop_last()) * 10 + (s.last() as int - '0' as int)
    }
}

pub open spec fn is_numeral(s: Seq<char>) -> bool {
    s.len() > 0 && forall|i: int| 0 <= i < s.len() ==> is_digit(#[trigger] s[i])
}

/// The count that a literal states: a decimal numeral that fits in 64 bits.
pub open spec fn count_of(t: TermV) -> Option<u64> {
    match t {
        TermV::Lit { lexical, .. } => if is_numeral(lexical) && numeral_value(lexical) <= u64::MAX {
            Some(numeral_value(lexical) as u64)
        } else {
            None
        },
        _ => None,
    }
}

/// The component that a value of the tag's predicate gives.
pub open spec fn convert(tag: ComponentTag, t: TermV) -> Result<ComponentV, ParseErrV> {
    match tag {
        ComponentTag::MinCount => match count_of(t) {
            Some(n) => Ok(ComponentV::MinCount(n)),
            None => Err(ParseErrV::ExpectedInteger(t)),
        },
        ComponentTag::MaxCount => match count_of(t) {
            Some(n) => Ok(ComponentV::MaxCount(n)),
            None => Err(ParseErrV::ExpectedInteger(t)),
        },
        ComponentTag::Datatype => match t {
            TermV::Iri(s) => Ok(ComponentV::Datatype(s)),
            _ => Err(ParseErrV::ExpectedIri(t)),
        },
        ComponentTag::NodeKind => match t {
            TermV::Iri(s) => if s == sh_iri_v() {
                Ok(ComponentV::NodeKind(NodeKind::Iri))
            } else if s == sh_literal_v() {
                Ok(ComponentV::NodeKind(NodeKind::Literal))
            } else if s == sh_blank_node_v() {
                Ok(ComponentV::NodeKind(NodeKind::BlankNode))
            } else {
                Err(ParseErrV::UnknownNodeKind(t))
            },
            _ => Err(ParseErrV::ExpectedNodeKind(t)),
        },
        ComponentTag::Class => Ok(ComponentV::Class(t)),
        ComponentTag::HasValue => Ok(ComponentV::HasValue(t)),
        ComponentTag::UniqueLang => match t {
            TermV::Lit { lexical, .. } => if lexical == "true"@ {
                Ok(ComponentV::UniqueLang(true))
            } else if lexical == "false"@ {
                Ok(ComponentV::UniqueLang(false))
            } else {
                Err(ParseErrV::ExpectedBoolean(t))
            },
            _ => Err(ParseErrV::ExpectedBoolean(t)),
        },
        ComponentTag::LessThan => match t {
            TermV::Iri(s) => Ok(ComponentV::LessThan(s)),
            _ => Err(ParseErrV::ExpectedIri(t)),
        },
    }
}

/// The components of the first `n` values, or the first failure.
pub open spec fn convert_all(tag: ComponentTag, ts: Seq<TermV>, n: int) -> Result<
    Seq<ComponentV>,
    ParseErrV,
>
    decreases n,
{
    if n <= 0 {
        Ok(Seq::empty())
    } else {
        match convert_all(tag, ts, n - 1) {
            Err(e) => Err(e),
            Ok(prev) => match convert(tag, ts[n - 1]) {
                Ok(c) => Ok(prev.push(c)),
                Err(e) => Err(e),
            },
        }
    }
}

/// The components of `node` for the first `k` tags, or the first failure.
pub open spec fn components_upto(g: Seq<TripleV>, node: TermV, k: int) -> Result<
    Seq<ComponentV>,
    ParseErrV,
>
    decreases k,
{
    if k <= 0 {
        Ok(Seq::empty())
    } else {
        match components_upto(g, node, k - 1) {
            Err(e) => Err(e),
            Ok(prev) => {
                let vals = objects_of(g, node, tag_predicate(tag_at(k - 1)));
                match convert_all(tag_at(k - 1), vals, vals.len() as int) {
                    Ok(cs) => Ok(prev + cs),
                    Err(e) => Err(e),
                }
            },
        }
    }
}

/// All components that `node` declares, or the first failure.
pub open spec fn components_spec(g: Seq<TripleV>, node: TermV) -> Result<Seq<ComponentV>, ParseErrV> {
    components_upto(g, node, N_TAGS as int)
}

proof fn lemma_convert_err_sticks(tag: ComponentTag, ts: Seq<TermV>, i: int, n: int)
    requires
        0 <= i <= n,
        convert_all(tag, ts, i) is Err,
    ensures
        convert_all(tag, ts, n) == convert_all(tag, ts, i),
    decreases n - i,
{
    if n > i {
        lemma_convert_err_sticks(tag, ts, i, n - 1);
    }
}

proof fn lemma_components_err_sticks(g: Seq<TripleV>, node: TermV, k: int, n: int)
    requires
        0 <= k <= n,
        components_upto(g, node, k) is Err,
    ensures
        components_upto(g, node, n) == components_upto(g, node, k),
    decreases n - k,
{
    if n > k {
        lemma_components_err_sticks(g, node, k, n - 1);
    }
}

fn tag(k: usize) -> (r: ComponentTag)
    requires
        k < N_TAGS,
    ensures
        r == tag_at(k as int),
{
    if k == 0 {
        ComponentTag::MinCount
    } else if k == 1 {
        ComponentTag::MaxCount
    } else if k == 2 {
        ComponentTag::Datatype
    } else if k == 3 {
        ComponentTag::NodeKind
    } else if k == 4 {
        ComponentTag::Class
    } else if k == 5 {
        ComponentTag::HasValue
    } else if k == 6 {
        ComponentTag::UniqueLang
    } else {
        ComponentTag::LessThan
    }
}

fn predicate_of(tag: ComponentTag) -> (r: &'static str)
    ensures
        r@ == tag_predicate(tag),
{
    match tag {
        ComponentTag::MinCount => sh_min_count(),
        ComponentTag::MaxCount => sh_max_count(),
        ComponentTag::Datatype => sh_datatype(),
        ComponentTag::NodeKind => sh_node_kind(),
        ComponentTag::Class => sh_class(),
        ComponentTag::HasValue => sh_has_value(),
        ComponentTag::UniqueLang => sh_unique_lang(),
        ComponentTag::LessThan => sh_less_than(),
    }
}


broadcast use vstd::string::group_string_axioms;

/// The count that a numeral states, if it is one and fits in 64 bits.
pub open spec fn numeral_u64(s: Seq<char>) -> Option<u64> {
    if is_numeral(s) && numeral_value(s) <= u64::MAX {
        Some(numeral_value(s) as u64)
    } else {
        None
    }
}

proof fn lemma_numeral_grows(s: Seq<char>, k: int, j: int)
    requires
        0 <= k <= j <= s.len(),
        forall|i: int| 0 <= i < s.len() ==> is_digit(#[trigger] s[i]),
    ensures
        numeral_value(s.subrange(0, j)) >= numeral_value(s.subrange(0, k)),
    decreases j - k,
{
    if j > k {
        lemma_numeral_grows(s, k, j - 1);
        assert(s.subrange(0, j).drop_last() =~= s.subrange(0, j - 1));
        assert(is_digit(s[j - 1]));
        assert(numeral_value(s.subrange(0, j - 1)) >= 0) by {
            lemma_numeral_nonneg(s.subrange(0, j - 1));
        }
    }
}

proof fn lemma_numeral_nonneg(s: Seq<char>)
    requires
        forall|i: int| 0 <= i < s.len() ==> is_digit(#[trigger] s[i]),
    ensures
        numeral_value(s) >= 0,
    decreases s.len(),
{
    if s.len() > 0 {
        lemma_numeral_nonneg(s.drop_last());
        assert(is_digit(s[s.len() - 1]));
    }
}

/// Reads a decimal numeral that fits in 64 bits.
pub fn parse_numeral(s: &str) -> (r: Option<u64>)
    ensures
        r == numeral_u64(s@),
{
    let ghost all = s@;
    let mut it = s.chars();
    let mut v: u64 = 0;
    let mut empty = true;
    let ghost mut k: int = 0;
    loop
        invariant
            all == s@,
            0 <= k <= all.len(),
            empty == (k == 0),
            vstd::std_specs::iter::IteratorSpec::remaining(&it) == all.subrange(k, all.len() as int),
            forall|i: int| 0 <= i < k ==> is_digit(#[trigger] all[i]),
            v == numeral_value(all.subrange(0, k)),
        ensures
            k == all.len(),
            empty == (k == 0),
            forall|i: int| 0 <= i < k ==> is_digit(#[trigger] all[i]),
            v == numeral_value(all.subrange(0, k)),
        decreases all.len() - k,
    {
        let ghost rem = vstd::std_specs::iter::IteratorSpec::remaining(&it);
        let next = it.next();
        assert(rem.len() == all.len() - k);
        match next {
            Some(c) => {
                assert(rem.len() > 0);
                assert(c == all[k]);
                if !('0' <= c && c <= '9') {
                    assert(!is_digit(all[k]));
                    assert(!is_numeral(all));
                    return None;
                }
                let d = (c as u32 - '0' as u32) as u64;
                assert(all.subrange(0, k + 1).drop_last() =~= all.subrange(0, k));
                assert(d as int == c as int - '0' as int);
                assert(numeral_value(all.subrange(0, k + 1)) == v * 10 + d);
                if v > (u64::MAX - d) / 10 {
                    proof {
                        assert(v * 10 + d > u64::MAX) by (nonlinear_arith)
                            requires
                                v > (u64::MAX - d) / 10,
                                d <= 9,
                        ;
                        if is_numeral(all) {
                            lemma_numeral_grows(all, k + 1, all.len() as int);
                            assert(all.subrange(0, all.len() as int) =~= all);
                        }
                    }
                    return None;
                }
                v = v * 10 + d;
                empty = false;
                proof {
                    k = k + 1;
                }
                assert(all.subrange(k, all.len() as int) =~= rem.drop_first());
            },
            None => {
                assert(rem.len() == 0);
                break;
            },
        }
    }
    assert(all.subrange(0, k) =~= all);
    if empty {
        return None;
    }
    Some(v)
}


pub open spec fn conv_ok<T: View>(r: Result<T, ShaclParserError>, spec: Result<T::V, ParseErrV>) -> bool {
    match r {
        Ok(v) => spec == Ok::<T::V, ParseErrV>(v@),
        Err(e) => spec == Err::<T::V, ParseErrV>(e@),
    }
}

fn str_is(s: &String, lit: &str) -> (r: bool)
    ensures
        r == (s@ == lit@),
{
    let l = lit.to_string();
    s.eq(&l)
}

/// The component that a value of the tag's predicate gives.
fn convert_term(tag: ComponentTag, t: &Term) -> (r: Result<Component, ShaclParserError>)
    ensures
        conv_ok(r, convert(tag, t@)),
{
    match tag {
        ComponentTag::MinCount | ComponentTag::MaxCount => {
            let n = match t {
                Term::Literal(l) => parse_numeral(l.lexical_form.as_str()),
                _ => None,
            };
            match n {
                Some(n) => if tag == ComponentTag::MinCount {
                    Ok(Component::MinCount(n))
                } else {
                    Ok(Component::MaxCount(n))
                },
                None => Err(ShaclParserError::ExpectedInteger(t.clone())),
            }
        },
        ComponentTag::Datatype => match t {
            Term::Iri(s) => Ok(Component::Datatype(s.clone())),
            _ => Err(ShaclParserError::ExpectedIri(t.clone())),
        },
        ComponentTag::NodeKind => match t {
            Term::Iri(s) => if str_is(s, sh_iri()) {
                Ok(Component::NodeKind(NodeKind::Iri))
            } else if str_is(s, sh_literal()) {
                Ok(Component::NodeKind(NodeKind::Literal))
            } else if str_is(s, sh_blank_node()) {
                Ok(Component::NodeKind(NodeKind::BlankNode))
            } else {
                Err(ShaclParserError::UnknownNodeKind(t.clone()))
            },
            _ => Err(ShaclParserError::ExpectedNodeKind(t.clone())),
        },
        ComponentTag::Class => Ok(Component::Class(t.clone())),
        ComponentTag::HasValue => Ok(Component::HasValue(t.clone())),
        ComponentTag::UniqueLang => match t {
            Term::Literal(l) => if str_is(&l.lexical_form, "true") {
                Ok(Component::UniqueLang(true))
            } else if str_is(&l.lexical_form, "false") {
                Ok(Component::UniqueLang(false))
            } else {
                Err(ShaclParserError::ExpectedBoolean(t.clone()))
            },
            _ => Err(ShaclParserError::ExpectedBoolean(t.clone())),
        },
        ComponentTag::LessThan => match t {
            Term::Iri(s) => Ok(Component::LessThan(SHACLPath::Predicate(s.clone()))),
            _ => Err(ShaclParserError::ExpectedIri(t.clone())),
        },
    }
}

/// The components of all values of one tag's predicate, in order, or the first failure.
fn convert_values(tag: ComponentTag, ts: &Vec<Term>) -> (r: Result<Vec<Component>, ShaclParserError>)
    ensures
        match r {
            Ok(v) => convert_all(tag, terms_view(ts@), ts@.len() as int) == Ok::<
                Seq<ComponentV>,
                ParseErrV,
            >(components_view(v@)),
            Err(e) => convert_all(tag, terms_view(ts@), ts@.len() as int) == Err::<
                Seq<ComponentV>,
                ParseErrV,
            >(e@),
        },
{
    let ghost tv = terms_view(ts@);
    let mut out: Vec<Component> = Vec::new();
    assert(components_view(out@) =~= Seq::<ComponentV>::empty());
    let mut i: usize = 0;
    while i < ts.len()
        invariant
            0 <= i <= ts@.len(),
            tv == terms_view(ts@),
            convert_all(tag, tv, i as int) == Ok::<Seq<ComponentV>, ParseErrV>(components_view(out@)),
        decreases ts.len() - i,
    {
        let c = convert_term(tag, &ts[i]);
        match c {
            Ok(c) => {
                let ghost before = components_view(out@);
                out.push(c);
                assert(components_view(out@) =~= before.push(c@));
            },
            Err(e) => {
                proof {
                    lemma_convert_err_sticks(tag, tv, i + 1, ts@.len() as int);
                }
                return Err(e);
            },
        }
        i += 1;
    }
    Ok(out)
}

impl SRDFGraph {
    /// All components that `node` declares, in the order of the tags, or
    /// the first failure.
    pub fn components_of(&self, node: &Term) -> (r: Result<Vec<Component>, ShaclParserError>)
        ensures
            match r {
                Ok(v) => components_spec(self@, node@) == Ok::<Seq<ComponentV>, ParseErrV>(
                    components_view(v@),
                ),
                Err(e) => components_spec(self@, node@) == Err::<Seq<ComponentV>, ParseErrV>(e@),
            },
    {
        let mut out: Vec<Component> = Vec::new();
        assert(components_view(out@) =~= Seq::<ComponentV>::empty());
        let mut k: usize = 0;
        while k < N_TAGS
            invariant
                0 <= k <= N_TAGS,
                components_upto(self@, node@, k as int) == Ok::<Seq<ComponentV>, ParseErrV>(
                    components_view(out@),
                ),
            decreases N_TAGS - k,
        {
            let t = tag(k);
            let vals = self.objects_for_subject_predicate(node, predicate_of(t));
            let mut cs = match convert_values(t, &vals) {
                Ok(cs) => cs,
                Err(e) => {
                    proof {
                        lemma_components_err_sticks(self@, node@, k + 1, N_TAGS as int);
                    }
                    return Err(e);
                },
            };
            let ghost before = components_view(out@);
            let ghost added = components_view(cs@);
            out.append(&mut cs);
            assert(components_view(out@) =~= before + added);
            k += 1;
        }
        Ok(out)
    }

    /// The targets of `node`: its target classes, then its target nodes.
    pub fn targets_of(&self, node: &Term) -> (r: Vec<Target>)
        ensures
            targets_view(r@) == targets_spec(self@, node@),
    {
        let classes = self.objects_for_subject_predicate(node, sh_target_class());
        let nodes = self.objects_for_subject_predicate(node, sh_target_node());
        let mut out: Vec<Target> = Vec::new();
        assert(targets_view(out@) =~= Seq::<TargetV>::empty());
        let mut i: usize = 0;
        while i < classes.len()
            invariant
                0 <= i <= classes@.len(),
                targets_view(out@) == terms_view(classes@).take(i as int).map_values(
                    |t: TermV| TargetV::Class(t),
                ),
            decreases classes.len() - i,
        {
            let ghost before = targets_view(out@);
            let item = Target::TargetClass(classes[i].clone());
            assert(item@ == TargetV::Class(terms_view(classes@)[i as int]));
            out.push(item);
            proof {
                let f = |t: TermV| TargetV::Class(t);
                let tv = terms_view(classes@);
                assert(targets_view(out@) =~= before.push(item@));
                assert(tv.take(i + 1) =~= tv.take(i as int).push(tv[i as int]));
                assert(tv.take(i + 1).map_values(f) =~= tv.take(i as int).map_values(f).push(f(tv[i as int])));
            }
            i += 1;
        }
        let ghost first = targets_view(out@);
        assert(terms_view(classes@).take(classes@.len() as int) =~= terms_view(classes@));
        let mut j: usize = 0;
        while j < nodes.len()
            invariant
                0 <= j <= nodes@.len(),
                targets_view(out@) == first + terms_view(nodes@).take(j as int).map_values(
                    |t: TermV| TargetV::Node(t),
                ),
            decreases nodes.len() - j,
        {
            let ghost before = targets_view(out@);
            let item = Target::TargetNode(nodes[j].clone());
            assert(item@ == TargetV::Node(terms_view(nodes@)[j as int]));
            out.push(item);
            proof {
                let f = |t: TermV| TargetV::Node(t);
                let tv = terms_view(nodes@);
                assert(targets_view(out@) =~= before.push(item@));
                assert(tv.take(j + 1) =~= tv.take(j as int).push(tv[j as int]));
                assert(tv.take(j + 1).map_values(f) =~= tv.take(j as int).map_values(f).push(f(tv[j as int])));
                assert(first + tv.take(j + 1).map_values(f) =~= (first + tv.take(j as int).map_values(f)).push(f(tv[j as int])));
            }
            j += 1;
        }
        assert(terms_view(nodes@).take(nodes@.len() as int) =~= terms_view(nodes@));
        out
    }

    /// The path of a property shape: its first `sh:path` value, which must be an IRI.
    pub fn path_of(&self, node: &Term) -> (r: Result<SHACLPath, ShaclParserError>)
        ensures
            conv_ok(r, path_spec(self@, node@)),
    {
        let ps = self.objects_for_subject_predicate(node, sh_path());
        if ps.len() == 0 {
            return Err(ShaclParserError::MissingPath(node.clone()));
        }
        match &ps[0] {
            Term::Iri(s) => Ok(SHACLPath::Predicate(s.clone())),
            other => Err(ShaclParserError::MalformedPath(other.clone())),
        }
    }
}

/// The targets that `node` declares: target classes, then target nodes.
pub open spec fn targets_spec(g: Seq<TripleV>, n: TermV) -> Seq<TargetV> {
    objects_of(g, n, sh_target_class_v()).map_values(|t: TermV| TargetV::Class(t)) + objects_of(
        g,
        n,
        sh_target_node_v(),
    ).map_values(|t: TermV| TargetV::Node(t))
}

/// The path of a property shape: the first `sh:path` value, an IRI.
pub open spec fn path_spec(g: Seq<TripleV>, n: TermV) -> Result<Seq<char>, ParseErrV> {
    let ps = objects_of(g, n, sh_path_v());
    if ps.len() == 0 {
        Err(ParseErrV::MissingPath(n))
    } else {
        match ps[0] {
            TermV::Iri(s) => Ok(s),
            other => Err(ParseErrV::MalformedPath(other)),
        }
    }
}


/// `n` is typed `sh:NodeShape`.
pub open spec fn is_node_shape(g: Seq<TripleV>, n: TermV) -> bool {
    has_triple(g, n, rdf_type_v(), TermV::Iri(sh_node_shape_v()))
}

/// The shape that `n` declares: a node shape when it is typed so, else a
/// property shape, which needs a path; or the first failure.
pub open spec fn shape_spec(g: Seq<TripleV>, n: TermV) -> Result<ShapeV, ParseErrV> {
    if is_node_shape(g, n) {
        Ok(
            ShapeV::Node(
                NodeShapeV {
                    id: n,
                    targets: targets_spec(g, n),
                    property_shapes: objects_of(g, n, sh_property_v()),
                },
            ),
        )
    } else {
        match path_spec(g, n) {
            Err(e) => Err(e),
            Ok(p) => match components_spec(g, n) {
                Err(e) => Err(e),
                Ok(cs) => Ok(
                    ShapeV::Property(
                        PropertyShapeV {
                            id: n,
                            path: p,
                            targets: targets_spec(g, n),
                            property_shapes: objects_of(g, n, sh_property_v()),
                            components: cs,
                        },
                    ),
                ),
            },
        }
    }
}

/// `n` defines a shape: it is typed `sh:NodeShape`, or it is the (non-literal)
/// object of a `sh:property` triple.
pub open spec fn is_candidate(g: Seq<TripleV>, n: TermV) -> bool {
    ||| is_node_shape(g, n)
    ||| (!(n is Lit) && exists|s: TermV| has_triple(g, s, sh_property_v(), n))
}

pub proof fn lemma_with_predicate(g: Seq<TripleV>, p: Seq<char>)
    ensures
        forall|t: TripleV| #[trigger] with_predicate(g, p).contains(t) <==> (g.contains(t) && t.p == p),
    decreases g.len(),
{
    if g.len() > 0 {
        lemma_with_predicate(g.drop_last(), p);
        let prev = with_predicate(g.drop_last(), p);
        assert forall|t: TripleV| with_predicate(g, p).contains(t) <==> (g.contains(t) && t.p == p) by {
            if g.contains(t) && t.p == p {
                let k = choose|k: int| 0 <= k < g.len() && g[k] == t;
                if k < g.len() - 1 {
                    assert(g.drop_last()[k] == t);
                    assert(g.drop_last().contains(t));
                    assert(prev.contains(t));
                    let j = choose|j: int| 0 <= j < prev.len() && prev[j] == t;
                    if g.last().p == p {
                        assert(prev.push(g.last())[j] == t);
                    }
                } else {
                    assert(prev.push(g.last())[prev.len() as int] == t);
                }
            }
            if with_predicate(g, p).contains(t) {
                if prev.contains(t) {
                    assert(g.drop_last().contains(t));
                    let k = choose|k: int| 0 <= k < g.drop_last().len() && g.drop_last()[k] == t;
                    assert(g[k] == t);
                } else {
                    let j = choose|j: int| 0 <= j < with_predicate(g, p).len() && with_predicate(g, p)[j] == t;
                    if j < prev.len() {
                        assert(prev[j] == t);
                    }
                    assert(g[g.len() - 1] == t);
                }
            }
        }
    }
}

/// Parses the shape that `node` declares.
pub fn parse_shape(g: &SRDFGraph, node: &Term) -> (r: Result<ShaclShape, ShaclParserError>)
    ensures
        conv_ok(r, shape_spec(g@, node@)),
{
    let ty = rdf_type().to_string();
    let marker = Term::iri(sh_node_shape());
    if g.contains_triple(node, &ty, &marker) {
        let targets = g.targets_of(node);
        let property_shapes = g.objects_for_subject_predicate(node, sh_property());
        return Ok(ShaclShape::NodeShape(NodeShape { id: node.clone(), targets, property_shapes }));
    }
    let path = g.path_of(node)?;
    let components = g.components_of(node)?;
    let targets = g.targets_of(node);
    let property_shapes = g.objects_for_subject_predicate(node, sh_property());
    Ok(
        ShaclShape::PropertyShape(
            PropertyShape { id: node.clone(), path, targets, property_shapes, components },
        ),
    )
}

/// The nodes that define shapes, each once.
pub fn shapes_candidates(g: &SRDFGraph) -> (r: Vec<Term>)
    ensures
        terms_view(r@).no_duplicates(),
        forall|n: TermV| terms_view(r@).contains(n) <==> is_candidate(g@, n),
{
    let typed = g.subjects_with_predicate_object(rdf_type(), &Term::iri(sh_node_shape()));
    let props = g.triples_with_predicate(sh_property());
    proof {
        lemma_with_predicate(g@, sh_property_v());
    }
    let ghost tv = terms_view(typed@);
    let ghost pv = triples_view(props@);
    let mut out: Vec<Term> = Vec::new();
    let mut j: usize = 0;
    while j < typed.len()
        invariant
            0 <= j <= typed@.len(),
            tv == terms_view(typed@),
            terms_view(out@).no_duplicates(),
            forall|x: TermV| terms_view(out@).contains(x) <==> exists|k: int| 0 <= k < j && #[trigger] tv[k] == x,
        decreases typed.len() - j,
    {
        let ghost before = terms_view(out@);
        if !contains_term(&out, &typed[j]) {
            out.push(typed[j].clone());
            assert(terms_view(out@) =~= before.push(tv[j as int]));
        }
        proof {
            let after = terms_view(out@);
            assert forall|x: TermV| after.contains(x) <==> exists|k: int| 0 <= k < j + 1 && #[trigger] tv[k] == x by {
                if after.contains(x) && !before.contains(x) {
                    let q = choose|q: int| 0 <= q < after.len() && after[q] == x;
                    if q < before.len() {
                        assert(before[q] == x);
                    }
                    assert(tv[j as int] == x);
                }
                if exists|k: int| 0 <= k < j + 1 && #[trigger] tv[k] == x {
                    let k = choose|k: int| 0 <= k < j + 1 && #[trigger] tv[k] == x;
                    if k < j {
                        assert(exists|k2: int| 0 <= k2 < j && #[trigger] tv[k2] == x);
                        assert(before.contains(x));
                    }
                    if before.contains(x) {
                        let q = choose|q: int| 0 <= q < before.len() && before[q] == x;
                        assert(after[q] == x);
                    } else {
                        assert(after[before.len() as int] == x);
                    }
                }
            }
        }
        j += 1;
    }
    let mut m: usize = 0;
    while m < props.len()
        invariant
            0 <= m <= props@.len(),
            tv == terms_view(typed@),
            pv == triples_view(props@),
            terms_view(out@).no_duplicates(),
            forall|x: TermV| terms_view(out@).contains(x) <==> (tv.contains(x) || (!(x is Lit) && exists|k: int| 0 <= k < m && #[trigger] pv[k].o == x)),
        decreases props.len() - m,
    {
        let ghost before = terms_view(out@);
        let o = &props[m].object;
        if !o.is_literal() && !contains_term(&out, o) {
            out.push(o.clone());
            assert(terms_view(out@) =~= before.push(pv[m as int].o));
        }
        proof {
            let after = terms_view(out@);
            assert forall|x: TermV| after.contains(x) <==> (tv.contains(x) || (!(x is Lit) && exists|k: int| 0 <= k < m + 1 && #[trigger] pv[k].o == x)) by {
                if before.contains(x) {
                    let q = choose|q: int| 0 <= q < before.len() && before[q] == x;
                    assert(after[q] == x);
                    if !tv.contains(x) {
                        let k = choose|k: int| 0 <= k < m && #[trigger] pv[k].o == x;
                        assert(pv[k].o == x);
                    }
                } else if after.contains(x) {
                    let q = choose|q: int| 0 <= q < after.len() && after[q] == x;
                    if q < before.len() {
                        assert(before[q] == x);
                    }
                    assert(pv[m as int].o == x);
                }
                if tv.contains(x) {
                    assert(before.contains(x));
                }
                if !(x is Lit) && exists|k: int| 0 <= k < m + 1 && #[trigger] pv[k].o == x {
                    let k = choose|k: int| 0 <= k < m + 1 && #[trigger] pv[k].o == x;
                    if k < m {
                        assert(exists|k2: int| 0 <= k2 < m && #[trigger] pv[k2].o == x);
                        assert(before.contains(x));
                    } else if !before.contains(x) {
                        assert(after[before.len() as int] == x);
                    }
                }
            }
        }
        m += 1;
    }
    proof {
        lemma_with_predicate(g@, sh_property_v());
        let after = terms_view(out@);
        assert forall|n: TermV| after.contains(n) <==> is_candidate(g@, n) by {
            if tv.contains(n) {
                let k = choose|k: int| 0 <= k < tv.len() && tv[k] == n;
            }
            if is_node_shape(g@, n) {
                assert(tv.contains(n));
            }
            if !(n is Lit) && exists|k: int| 0 <= k < pv.len() && #[trigger] pv[k].o == n {
                let k = choose|k: int| 0 <= k < pv.len() && #[trigger] pv[k].o == n;
                assert(with_predicate(g@, sh_property_v()).contains(pv[k]));
                let t = pv[k];
                assert(with_predicate(g@, sh_property_v()).contains(t));
                assert(g@.contains(t) && t.p == sh_property_v()) by {
                    lemma_with_predicate(g@, sh_property_v());
                }
                assert(pv[k].o == n);
                assert(pv[k] == TripleV { s: pv[k].s, p: sh_property_v(), o: n });
                assert(has_triple(g@, pv[k].s, sh_property_v(), n));
            }
            if !(n is Lit) && exists|s: TermV| has_triple(g@, s, sh_property_v(), n) {
                let s = choose|s: TermV| has_triple(g@, s, sh_property_v(), n);
                let t = TripleV { s, p: sh_property_v(), o: n };
                assert(with_predicate(g@, sh_property_v()).contains(t));
                let k = choose|k: int| 0 <= k < pv.len() && pv[k] == t;
                assert(pv[k].o == n);
            }
        }
    }
    out
}


/// Reads the shapes that a graph declares.
#[derive(Debug)]
pub struct ShaclParser {
    rdf: SRDFGraph,
}

impl View for ShaclParser {
    type V = Seq<TripleV>;

    closed spec fn view(&self) -> Seq<TripleV> {
        self.rdf@
    }
}

impl ShaclParser {
    /// A parser over the shapes graph `rdf`.
    pub fn new(rdf: SRDFGraph) -> (r: ShaclParser)
        ensures
            r@ == rdf@,
    {
        ShaclParser { rdf }
    }

    /// Parses every shape of the graph. The shapes are the candidates (nodes
    /// typed `sh:NodeShape` and non-literal objects of `sh:property`), each
    /// parsed once. Fails with the error of a candidate that does not parse;
    /// succeeds when all do.
    pub fn parse(&mut self) -> (r: Result<Schema, ShaclParserError>)
        ensures
            final(self)@ == old(self)@,
            r matches Ok(s) ==> s.wf() && (forall|n: TermV|
                #[trigger] ids_of(s@).contains(n) <==> is_candidate(old(self)@, n)) && (forall|i: int|
                0 <= i < s@.len() ==> shape_spec(old(self)@, #[trigger] s@[i].id()) == Ok::<
                    ShapeV,
                    ParseErrV,
                >(s@[i])),
            r matches Err(e) ==> exists|n: TermV|
                is_candidate(old(self)@, n) && #[trigger] shape_spec(old(self)@, n) == Err::<
                    ShapeV,
                    ParseErrV,
                >(e@),
            (forall|n: TermV| is_candidate(old(self)@, n) ==> (#[trigger] shape_spec(old(self)@, n)) is Ok)
                ==> r is Ok,
    {
        let ghost g = self.rdf@;
        let mut pending = shapes_candidates(&self.rdf);
        let mut shapes: Vec<ShaclShape> = Vec::new();
        let mut ids: Vec<Term> = Vec::new();
        assert(ids_of(shapes_view(shapes@)) =~= terms_view(ids@));
        while pending.len() > 0
            invariant
                g == self.rdf@,
                ids_of(shapes_view(shapes@)) == terms_view(ids@),
                terms_view(ids@).no_duplicates(),
                forall|i: int|
                    0 <= i < shapes@.len() ==> shape_spec(g, #[trigger] shapes_view(shapes@)[i].id())
                        == Ok::<ShapeV, ParseErrV>(shapes_view(shapes@)[i]),
                forall|n: TermV|
                    (terms_view(ids@).contains(n) || terms_view(pending@).contains(n))
                        <==> is_candidate(g, n),
            decreases pending.len(),
        {
            let ghost pv = terms_view(pending@);
            let node = pending.pop().unwrap();
            assert(terms_view(pending@) =~= pv.drop_last());
            assert(node@ == pv.last());
            assert(pv.contains(node@)) by {
                assert(pv[pv.len() - 1] == node@);
            }
            let ghost old_iv = terms_view(ids@);
            if !contains_term(&ids, &node) {
                let shape = match parse_shape(&self.rdf, &node) {
                    Ok(s) => s,
                    Err(e) => {
                        return Err(e);
                    },
                };
                let ghost sv = shapes_view(shapes@);
                let ghost iv = terms_view(ids@);
                proof {
                    assert(shape@.id() == node@);
                }
                shapes.push(shape);
                ids.push(node);
                proof {
                    assert(shapes_view(shapes@) =~= sv.push(shape@));
                    assert(terms_view(ids@) =~= iv.push(node@));
                    assert(ids_of(shapes_view(shapes@)) =~= terms_view(ids@));
                    assert forall|i: int|
                        0 <= i < shapes@.len() implies shape_spec(g, #[trigger] shapes_view(shapes@)[i].id())
                            == Ok::<ShapeV, ParseErrV>(shapes_view(shapes@)[i]) by {
                        if i < sv.len() {
                            assert(shapes_view(shapes@)[i] == sv[i]);
                        }
                    }
                    assert(terms_view(ids@)[iv.len() as int] == node@);
                    assert forall|x: TermV| old_iv.contains(x) implies terms_view(ids@).contains(x) by {
                        let q = choose|q: int| 0 <= q < old_iv.len() && old_iv[q] == x;
                        assert(terms_view(ids@)[q] == x);
                    }
                }
            }
            assert(terms_view(ids@).contains(node@));
            assert(forall|x: TermV| old_iv.contains(x) ==> terms_view(ids@).contains(x));
            proof {
                let iv = terms_view(ids@);
                let rest = terms_view(pending@);
                assert forall|n: TermV| (iv.contains(n) || rest.contains(n)) <==> is_candidate(g, n) by {
                    if rest.contains(n) {
                        let q = choose|q: int| 0 <= q < rest.len() && rest[q] == n;
                        assert(pv[q] == n);
                    }
                    if pv.contains(n) && n != node@ {
                        let q = choose|q: int| 0 <= q < pv.len() && pv[q] == n;
                        assert(q != pv.len() - 1);
                        assert(rest[q] == n);
                    }
                    if iv.contains(n) && !old_iv.contains(n) {
                        let q = choose|q: int| 0 <= q < iv.len() && iv[q] == n;
                        if q < old_iv.len() {
                            assert(old_iv[q] == n);
                        }
                    }
                }
            }
        }
        proof {
            assert forall|n: TermV| #[trigger] ids_of(shapes_view(shapes@)).contains(n) <==> is_candidate(g, n) by {
                if terms_view(pending@).contains(n) {
                    let q = choose|q: int| 0 <= q < terms_view(pending@).len() && terms_view(pending@)[q] == n;
                }
            }
        }
        let s = Schema::from_shapes(shapes);
        Ok(s)
    }
}

} // verus!
