//! The IRIs of the RDF, RDFS and SHACL vocabularies that the library reads.

use vstd::prelude::*;

verus! {

pub open spec fn rdf_type_v() -> Seq<char> {
    "http://www.w3.org/1999/02/22-rdf-syntax-ns#type"@
}

pub open spec fn subclass_of_v() -> Seq<char> {
    "http://www.w3.org/2000/01/rdf-schema#subClassOf"@
}

pub open spec fn sh_node_shape_v() -> Seq<char> {
    "http://www.w3.org/ns/shacl#NodeShape"@
}

pub open spec fn sh_property_v() -> Seq<char> {
    "http://www.w3.org/ns/shacl#property"@
}

pub open spec fn sh_path_v() -> Seq<char> {
    "http://www.w3.org/ns/shacl#path"@
}

pub open spec fn sh_target_class_v() -> Seq<char> {
    "http://www.w3.org/ns/shacl#targetClass"@
}

pub open spec fn sh_target_node_v() -> Seq<char> {
    "http://www.w3.org/ns/shacl#targetNode"@
}

pub open spec fn sh_min_count_v() -> Seq<char> {
    "http://www.w3.org/ns/shacl#minCount"@
}

pub open spec fn sh_max_count_v() -> Seq<char> {
    "http://www.w3.org/ns/shacl#maxCount"@
}

pub open spec fn sh_datatype_v() -> Seq<char> {
    "http://www.w3.org/ns/shacl#datatype"@
}

pub open spec fn sh_class_v() -> Seq<char> {
    "http://www.w3.org/ns/shacl#class"@
}

pub open spec fn sh_node_kind_v() -> Seq<char> {
    "http://www.w3.org/ns/shacl#nodeKind"@
}

pub open spec fn sh_has_value_v() -> Seq<char> {
    "http://www.w3.org/ns/shacl#hasValue"@
}

pub open spec fn sh_unique_lang_v() -> Seq<char> {
    "http://www.w3.org/ns/shacl#uniqueLang"@
}

pub open spec fn sh_less_than_v() -> Seq<char> {
    "http://www.w3.org/ns/shacl#lessThan"@
}

pub open spec fn sh_iri_v() -> Seq<char> {
    "http://www.w3.org/ns/shacl#IRI"@
}

pub open spec fn sh_literal_v() -> Seq<char> {
    "http://www.w3.org/ns/shacl#Literal"@
}

pub open spec fn sh_blank_node_v() -> Seq<char> {
    "http://www.w3.org/ns/shacl#BlankNode"@
}

pub fn rdf_type() -> (r: &'static str)
    ensures
        r@ == rdf_type_v(),
{
    "http://www.w3.org/1999/02/22-rdf-syntax-ns#type"
}

pub fn subclass_of() -> (r: &'static str)
    ensures
        r@ == subclass_of_v(),
{
    "http://www.w3.org/2000/01/rdf-schema#subClassOf"
}

pub fn sh_node_shape() -> (r: &'static str)
    ensures
        r@ == sh_node_shape_v(),
{
    "http://www.w3.org/ns/shacl#NodeShape"
}

pub fn sh_property() -> (r: &'static str)
    ensures
        r@ == sh_property_v(),
{
    "http://www.w3.org/ns/shacl#property"
}

pub fn sh_path() -> (r: &'static str)
    ensures
        r@ == sh_path_v(),
{
    "http://www.w3.org/ns/shacl#path"
}

pub fn sh_target_class() -> (r: &'static str)
    ensures
        r@ == sh_target_class_v(),
{
    "http://www.w3.org/ns/shacl#targetClass"
}

pub fn sh_target_node() -> (r: &'static str)
    ensures
        r@ == sh_target_node_v(),
{
    "http://www.w3.org/ns/shacl#targetNode"
}

pub fn sh_min_count() -> (r: &'static str)
    ensures
        r@ == sh_min_count_v(),
{
    "http://www.w3.org/ns/shacl#minCount"
}

pub fn sh_max_count() -> (r: &'static str)
    ensures
        r@ == sh_max_count_v(),
{
    "http://www.w3.org/ns/shacl#maxCount"
}

pub fn sh_datatype() -> (r: &'static str)
    ensures
        r@ == sh_datatype_v(),
{
    "http://www.w3.org/ns/shacl#datatype"
}

pub fn sh_class() -> (r: &'static str)
    ensures
        r@ == sh_class_v(),
{
    "http://www.w3.org/ns/shacl#class"
}

pub fn sh_node_kind() -> (r: &'static str)
    ensures
        r@ == sh_node_kind_v(),
{
    "http://www.w3.org/ns/shacl#nodeKind"
}

pub fn sh_has_value() -> (r: &'static str)
    ensures
        r@ == sh_has_value_v(),
{
    "http://www.w3.org/ns/shacl#hasValue"
}

pub fn sh_unique_lang() -> (r: &'static str)
    ensures
        r@ == sh_unique_lang_v(),
{
    "http://www.w3.org/ns/shacl#uniqueLang"
}

pub fn sh_less_than() -> (r: &'static str)
    ensures
        r@ == sh_less_than_v(),
{
    "http://www.w3.org/ns/shacl#lessThan"
}

pub fn sh_iri() -> (r: &'static str)
    ensures
        r@ == sh_iri_v(),
{
    "http://www.w3.org/ns/shacl#IRI"
}

pub fn sh_literal() -> (r: &'static str)
    ensures
        r@ == sh_literal_v(),
{
    "http://www.w3.org/ns/shacl#Literal"
}

pub fn sh_blank_node() -> (r: &'static str)
    ensures
        r@ == sh_blank_node_v(),
{
    "http://www.w3.org/ns/shacl#BlankNode"
}

} // verus!
