//! RDF terms: IRIs, blank nodes and literals.

use vstd::prelude::*;

verus! {

/// The mathematical view of a term: what identifies it, as character sequences.
pub enum TermV {
    Iri(Seq<char>),
    BNode(Seq<char>),
    Lit { lexical: Seq<char>, datatype: Option<Seq<char>>, lang: Option<Seq<char>> },
}

pub open spec fn opt_view(o: Option<String>) -> Option<Seq<char>> {
    match o {
        Some(s) => Some(s@),
        None => None,
    }
}

/// An RDF literal: a lexical form with an optional datatype IRI or language tag.
#[derive(Debug)]
pub struct Literal {
    pub lexical_form: String,
    pub datatype: Option<String>,
    pub lang: Option<String>,
}

/// An RDF term as it stands in the subject or object position of a triple.
#[derive(Debug)]
pub enum Term {
    Iri(String),
    BlankNode(String),
    Literal(Literal),
}

impl View for Term {
    type V = TermV;

    open spec fn view(&self) -> TermV {
        match self {
            Term::Iri(s) => TermV::Iri(s@),
            Term::BlankNode(s) => TermV::BNode(s@),
            Term::Literal(l) => TermV::Lit {
                lexical: l.lexical_form@,
                datatype: opt_view(l.datatype),
                lang: opt_view(l.lang),
            },
        }
    }
}

fn clone_opt(o: &Option<String>) -> (r: Option<String>)
    ensures
        r == *o,
{
    match o {
        Some(s) => Some(s.clone()),
        None => None,
    }
}

fn eq_opt(a: &Option<String>, b: &Option<String>) -> (r: bool)
    ensures
        r == (opt_view(*a) == opt_view(*b)),
{
    match (a, b) {
        (Some(x), Some(y)) => x.eq(y),
        (None, None) => true,
        _ => false,
    }
}

impl Clone for Literal {
    fn clone(&self) -> (r: Self)
        ensures
            r == *self,
    {
        Literal {
            lexical_form: self.lexical_form.clone(),
            datatype: clone_opt(&self.datatype),
            lang: clone_opt(&self.lang),
        }
    }
}

impl Clone for Term {
    fn clone(&self) -> (r: Self)
        ensures
            r == *self,
    {
        match self {
            Term::Iri(s) => Term::Iri(s.clone()),
            Term::BlankNode(s) => Term::BlankNode(s.clone()),
            Term::Literal(l) => Term::Literal(l.clone()),
        }
    }
}

impl PartialEq for Term {
    fn eq(&self, o: &Term) -> (r: bool)
        ensures
            r == (self@ == o@),
    {
        match (self, o) {
            (Term::Iri(a), Term::Iri(b)) => a.eq(b),
            (Term::BlankNode(a), Term::BlankNode(b)) => a.eq(b),
            (Term::Literal(a), Term::Literal(b)) => {
                a.lexical_form.eq(&b.lexical_form) && eq_opt(&a.datatype, &b.datatype) && eq_opt(
                    &a.lang,
                    &b.lang,
                )
            },
            _ => false,
        }
    }
}

impl vstd::std_specs::cmp::PartialEqSpecImpl for Term {
    open spec fn obeys_eq_spec() -> bool {
        true
    }

    open spec fn eq_spec(&self, o: &Term) -> bool {
        self@ == o@
    }
}

impl Eq for Term {

}

impl Term {
    /// An IRI term.
    pub fn iri(s: &str) -> (r: Term)
        ensures
            r@ == TermV::Iri(s@),
    {
        Term::Iri(s.to_string())
    }

    /// A literal without datatype or language tag.
    pub fn plain_literal(s: &str) -> (r: Term)
        ensures
            r@ == (TermV::Lit { lexical: s@, datatype: None, lang: None }),
    {
        Term::Literal(Literal { lexical_form: s.to_string(), datatype: None, lang: None })
    }

    /// Whether the term is a literal.
    pub fn is_literal(&self) -> (r: bool)
        ensures
            r == self@ is Lit,
    {
        match self {
            Term::Literal(_) => true,
            _ => false,
        }
    }
}


pub open spec fn xsd_string_v() -> Seq<char> {
    "http://www.w3.org/2001/XMLSchema#string"@
}

pub open spec fn rdf_lang_string_v() -> Seq<char> {
    "http://www.w3.org/1999/02/22-rdf-syntax-ns#langString"@
}

/// The term with the datatypes that RDF implies left out: `xsd:string` on
/// a literal without language tag, `rdf:langString` on one with a tag.
pub open spec fn normalized(t: TermV) -> TermV {
    match t {
        TermV::Lit { lexical, datatype, lang } => {
            let implied = match lang {
                Some(_) => datatype == Some(rdf_lang_string_v()),
                None => datatype == Some(xsd_string_v()),
            };
            TermV::Lit { lexical, datatype: if implied { None } else { datatype }, lang }
        },
        _ => t,
    }
}

impl Term {
    /// The same term with the datatypes that RDF implies left out, so that
    /// `"a"` and `"a"^^xsd:string` are one term.
    pub fn normalize(self) -> (r: Term)
        ensures
            r@ == normalized(self@),
    {
        match self {
            Term::Literal(l) => {
                let implied = match (&l.lang, &l.datatype) {
                    (Some(_), Some(d)) => {
                        let ls = "http://www.w3.org/1999/02/22-rdf-syntax-ns#langString".to_string();
                        d.eq(&ls)
                    },
                    (None, Some(d)) => {
                        let xs = "http://www.w3.org/2001/XMLSchema#string".to_string();
                        d.eq(&xs)
                    },
                    _ => false,
                };
                if implied {
                    Term::Literal(Literal { lexical_form: l.lexical_form, datatype: None, lang: l.lang })
                } else {
                    Term::Literal(l)
                }
            },
            other => other,
        }
    }
}

} // verus!
