//! Validation of RDF data graphs against SHACL shapes graphs.
//!
//! The library discovers shapes in a graph, compiles them into an index keyed
//! by shape identifier, and evaluates each constraint component against the
//! value nodes of the focus nodes that the shape targets. Class membership can
//! be decided natively, by walking `rdf:type` / `rdfs:subClassOf` edges, or by
//! a query store that answers generated `ASK` queries; both strategies share
//! one judging code path.

pub mod term;
pub mod vocab;
pub mod graph;
pub mod closure;
pub mod shacl;
pub mod report;
pub mod constraints;
pub mod strategy;
pub mod parser;
pub mod compiler;
pub mod engine;
pub mod shex;
pub mod format;
pub mod turtle;
pub mod prefixmap;
