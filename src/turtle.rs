//! Reading a graph from Turtle text, and showing terms in colour.

use vstd::prelude::*;
use colored::Colorize;
use oxrdf::Triple as OxTriple;
use crate::graph::{SRDFGraph, Triple};
use crate::strategy::show_term;
use crate::term::{Literal, Term};

verus! {

#[verifier::external_type_specification]
#[verifier::external_body]
pub struct ExOxTriple(OxTriple);

/// Whether oxttl's Turtle parser reads `data` without error, relative IRIs
/// resolved against `base`.
pub uninterp spec fn turtle_accepts(data: Seq<char>, base: Option<Seq<char>>) -> bool;

pub open spec fn base_view(base: Option<&str>) -> Option<Seq<char>> {
    match base {
        Some(b) => Some(b@),
        None => None,
    }
}

/// Relies on oxttl's `TurtleParser` (`with_base_iri`, `for_slice`,
/// `prefixes`): the triples and prefix declarations of `data`, or the
/// message of the first error; whether it fails depends on the arguments alone.
#[verifier::external_body]
fn read_turtle(data: &str, base: Option<&str>) -> (r: Result<
    (Vec<OxTriple>, Vec<(String, String)>),
    String,
>)
    ensures
        r is Ok == turtle_accepts(data@, base_view(base)),
{
    let parser = match base {
        Some(b) => match oxttl::TurtleParser::new().with_base_iri(b) {
            Ok(p) => p,
            Err(e) => return Err(e.to_string()),
        },
        None => oxttl::TurtleParser::new(),
    };
    let mut reader = parser.for_slice(data);
    match (&mut reader).collect::<Result<Vec<OxTriple>, _>>() {
        Ok(ts) => Ok((ts, reader.prefixes().map(|(k, v)| (k.to_string(), v.to_string())).collect())),
        Err(e) => Err(e.to_string()),
    }
}

/// Relies on oxrdf's `Triple::subject`: an IRI or a blank node.
#[verifier::external_body]
fn ox_subject(t: &OxTriple) -> (r: Term)
    ensures
        !(r is Literal),
{
    match &t.subject {
        oxrdf::NamedOrBlankNode::NamedNode(n) => Term::Iri(n.as_str().to_string()),
        oxrdf::NamedOrBlankNode::BlankNode(b) => Term::BlankNode(b.as_str().to_string()),
    }
}

/// Relies on oxrdf's `Triple::predicate`: the predicate IRI.
#[verifier::external_body]
fn ox_predicate(t: &OxTriple) -> (r: String) {
    t.predicate.as_str().to_string()
}

/// Relies on oxrdf's `Triple::object`: an IRI, a blank node or a literal with
/// its lexical form, datatype IRI and language tag.
#[verifier::external_body]
fn ox_object(t: &OxTriple) -> (r: Term) {
    match &t.object {
        oxrdf::Term::NamedNode(n) => Term::Iri(n.as_str().to_string()),
        oxrdf::Term::BlankNode(b) => Term::BlankNode(b.as_str().to_string()),
        oxrdf::Term::Literal(l) => Term::Literal(Literal {
            lexical_form: l.value().to_string(),
            datatype: Some(l.datatype().as_str().to_string()),
            lang: l.language().map(|s| s.to_string()),
        }),
    }
}

/// Relies on colored's `Colorize::green`; whether colour codes are added
/// depends on the environment.
#[verifier::external_body]
fn green(s: &str) -> String {
    format!("{}", s.green())
}

/// Relies on colored's `Colorize::red`; whether colour codes are added
/// depends on the environment.
#[verifier::external_body]
fn red(s: &str) -> String {
    format!("{}", s.red())
}

/// Why a graph could not be read.
#[derive(Debug, PartialEq)]
pub enum SRDFGraphError {
    /// The Turtle text or the base IRI is malformed; the message says where.
    Turtle(String),
}

impl SRDFGraph {
    /// Reads a graph from Turtle text, resolving relative IRIs against
    /// `base`. Fails exactly when the Turtle parser does.
    pub fn from_str(data: &str, base: Option<&str>) -> (r: Result<SRDFGraph, SRDFGraphError>)
        ensures
            r is Ok == turtle_accepts(data@, base_view(base)),
            r matches Ok(g) ==> g.wf(),
    {
        match read_turtle(data, base) {
            Err(msg) => Err(SRDFGraphError::Turtle(msg)),
            Ok((triples, prefixes)) => {
                let mut ts: Vec<Triple> = Vec::new();
                let mut i: usize = 0;
                while i < triples.len()
                    decreases triples.len() - i,
                {
                    let t = &triples[i];
                    ts.push(
                        Triple {
                            subject: ox_subject(t),
                            predicate: ox_predicate(t),
                            object: ox_object(t).normalize(),
                        },
                    );
                    i += 1;
                }
                let mut g = SRDFGraph::from_triples(ts);
                let mut k: usize = 0;
                while k < prefixes.len()
                    invariant
                        0 <= k <= prefixes@.len(),
                        g.wf(),
                    decreases prefixes.len() - k,
                {
                    g.add_prefix(prefixes[k].0.as_str(), prefixes[k].1.as_str());
                    k += 1;
                }
                Ok(g)
            },
        }
    }

    /// A blank node label as it is shown, in green where colour is on.
    pub fn show_blanknode(&self, label: &str) -> String {
        let t = Term::BlankNode(label.to_string());
        let s = show_term(&t);
        green(s.as_str())
    }

    /// A literal as it is shown, in red where colour is on.
    pub fn show_literal(&self, lit: &Term) -> String {
        let s = show_term(lit);
        red(s.as_str())
    }
}

} // verus!
