//! RDF emission: the composition graph as triples in an oxigraph store,
//! serialised as Turtle (`composition.ttl`).

use vstd::prelude::*;
use oxigraph::io::RdfFormat;
use oxigraph::model::{GraphName, GraphNameRef, Literal, NamedNode, Quad, Term};
use oxigraph::store::Store;
use crate::error::RdfError;
use crate::ontology::{Composition, CompositionView, Entity, EntityType, EntityView, Link, LinkView, Predicate};

verus! {

/// The ontology class of an entity type, in the composition vocabulary.
pub open spec fn spec_entity_class(t: EntityType) -> Seq<char> {
    match t {
        EntityType::UpstreamImage => "UpstreamImage"@,
        EntityType::FleetImage => "FleetImage"@,
        EntityType::StaticArtifact => "StaticArtifact"@,
        EntityType::DbExtension => "DBExtension"@,
        EntityType::Process => "Process"@,
    }
}

/// The ontology class of an entity type.
pub fn entity_class(t: EntityType) -> (r: &'static str)
    ensures
        r@ == spec_entity_class(t),
{
    match t {
        EntityType::UpstreamImage => "UpstreamImage",
        EntityType::FleetImage => "FleetImage",
        EntityType::StaticArtifact => "StaticArtifact",
        EntityType::DbExtension => "DBExtension",
        EntityType::Process => "Process",
    }
}

/// The term of a predicate, as declarations write it.
pub open spec fn spec_predicate_term(p: Predicate) -> Seq<char> {
    match p {
        Predicate::InheritsFrom => "INHERITS_FROM"@,
        Predicate::CopiesFrom => "COPIES_FROM"@,
        Predicate::Builds => "BUILDS"@,
        Predicate::Supervises => "SUPERVISES"@,
        Predicate::ShimsFor => "SHIMS_FOR"@,
        Predicate::SmokesBy => "SMOKES_BY"@,
    }
}

/// The term of a predicate.
pub fn predicate_term(p: Predicate) -> (r: &'static str)
    ensures
        r@ == spec_predicate_term(p),
{
    match p {
        Predicate::InheritsFrom => "INHERITS_FROM",
        Predicate::CopiesFrom => "COPIES_FROM",
        Predicate::Builds => "BUILDS",
        Predicate::Supervises => "SUPERVISES",
        Predicate::ShimsFor => "SHIMS_FOR",
        Predicate::SmokesBy => "SMOKES_BY",
    }
}

/// The object of a triple: an IRI or a plain string literal.
#[derive(Debug)]
pub enum TripleObject {
    Iri(String),
    Literal(String),
}

pub enum ObjectView {
    Iri(Seq<char>),
    Literal(Seq<char>),
}

/// A triple of the default graph.
#[derive(Debug)]
pub struct Triple {
    pub subject: String,
    pub predicate: String,
    pub object: TripleObject,
}

pub struct TripleView {
    pub subject: Seq<char>,
    pub predicate: Seq<char>,
    pub object: ObjectView,
}

impl View for Triple {
    type V = TripleView;

    open spec fn view(&self) -> TripleView {
        TripleView {
            subject: self.subject@,
            predicate: self.predicate@,
            object: match self.object {
                TripleObject::Iri(s) => ObjectView::Iri(s@),
                TripleObject::Literal(s) => ObjectView::Literal(s@),
            },
        }
    }
}

pub open spec fn triple_views(v: Seq<Triple>) -> Seq<TripleView> {
    v.map_values(|t: Triple| t@)
}

/// An IRI of the composition vocabulary.
pub open spec fn sx(local: Seq<char>) -> Seq<char> {
    "https://sporaxis.dev/ontology/compose#"@ + local
}

pub open spec fn rdf_type() -> Seq<char> {
    "http://www.w3.org/1999/02/22-rdf-syntax-ns#type"@
}

/// The triples of an entity: its class, then its version and its placement
/// layer where it has them.
pub open spec fn spec_entity_triples(e: EntityView) -> Seq<TripleView> {
    seq![
        TripleView {
            subject: sx(e.name),
            predicate: rdf_type(),
            object: ObjectView::Iri(sx(spec_entity_class(e.entity_type))),
        },
    ] + match e.version {
        Some(v) => seq![
            TripleView {
                subject: sx(e.name),
                predicate: sx("version"@),
                object: ObjectView::Literal(v),
            },
        ],
        None => seq![],
    } + match e.placement_layer {
        Some(p) => seq![
            TripleView {
                subject: sx(e.name),
                predicate: sx("placementLayer"@),
                object: ObjectView::Literal(p),
            },
        ],
        None => seq![],
    }
}

pub open spec fn spec_entities_triples(es: Seq<EntityView>) -> Seq<TripleView>
    decreases es.len(),
{
    if es.len() == 0 {
        seq![]
    } else {
        spec_entities_triples(es.drop_last()) + spec_entity_triples(es.last())
    }
}

/// The triple of a link: subject, predicate term and object, all IRIs.
pub open spec fn spec_link_triple(l: LinkView) -> TripleView {
    TripleView {
        subject: sx(l.subject),
        predicate: sx(spec_predicate_term(l.predicate)),
        object: ObjectView::Iri(sx(l.object)),
    }
}

/// The composition as triples: those of each entity, then one per link.
pub open spec fn spec_triples(c: CompositionView) -> Seq<TripleView> {
    spec_entities_triples(c.entities) + c.links.map_values(|l: LinkView| spec_link_triple(l))
}

fn vocab(local: &str) -> (r: String)
    ensures
        r@ == sx(local@),
{
    let mut s = String::from_str("https://sporaxis.dev/ontology/compose#");
    s.append(local);
    s
}

fn push_entity_triples(out: &mut Vec<Triple>, e: &Entity)
    ensures
        triple_views(final(out)@) == triple_views(old(out)@) + spec_entity_triples(e@),
{
    let ghost before = triple_views(out@);
    out.push(
        Triple {
            subject: vocab(e.name.as_str()),
            predicate: String::from_str("http://www.w3.org/1999/02/22-rdf-syntax-ns#type"),
            object: TripleObject::Iri(vocab(entity_class(e.entity_type))),
        },
    );
    match &e.version {
        Some(v) => {
            out.push(
                Triple {
                    subject: vocab(e.name.as_str()),
                    predicate: vocab("version"),
                    object: TripleObject::Literal(v.clone()),
                },
            );
        },
        None => {},
    }
    match &e.placement_layer {
        Some(p) => {
            out.push(
                Triple {
                    subject: vocab(e.name.as_str()),
                    predicate: vocab("placementLayer"),
                    object: TripleObject::Literal(p.clone()),
                },
            );
        },
        None => {},
    }
    assert(triple_views(out@) =~= before + spec_entity_triples(e@));
}

fn link_triple(l: &Link) -> (r: Triple)
    ensures
        r@ == spec_link_triple(l@),
{
    Triple {
        subject: vocab(l.subject.as_str()),
        predicate: vocab(predicate_term(l.predicate)),
        object: TripleObject::Iri(vocab(l.object.as_str())),
    }
}

/// The composition as RDF triples.
pub fn composition_triples(comp: &Composition) -> (r: Vec<Triple>)
    ensures
        triple_views(r@) == spec_triples(comp@),
{
    let ghost es = comp@.entities;
    let ghost ls = comp@.links;
    let mut out: Vec<Triple> = Vec::new();
    let n = comp.entities.len();
    assert(es.take(0) =~= Seq::<EntityView>::empty());
    assert(triple_views(out@) =~= spec_entities_triples(es.take(0)));
    for i in 0..n
        invariant
            n == comp.entities@.len(),
            es == comp@.entities,
            triple_views(out@) == spec_entities_triples(es.take(i as int)),
    {
        push_entity_triples(&mut out, &comp.entities[i]);
        assert(es.take(i + 1).drop_last() =~= es.take(i as int));
        assert(es.take(i + 1).last() == comp.entities@[i as int]@);
    }
    assert(es.take(n as int) =~= es);
    let ghost head = triple_views(out@);
    let m = comp.links.len();
    let ghost lt = ls.map_values(|l: LinkView| spec_link_triple(l));
    for j in 0..m
        invariant
            m == comp.links@.len(),
            ls == comp@.links,
            lt == ls.map_values(|l: LinkView| spec_link_triple(l)),
            triple_views(out@) == head + lt.take(j as int),
    {
        let t = link_triple(&comp.links[j]);
        assert(ls[j as int] == comp.links@[j as int]@);
        assert(lt[j as int] == t@);
        let ghost prev = triple_views(out@);
        out.push(t);
        assert(triple_views(out@) =~= prev.push(lt[j as int]));
        assert(lt.take(j + 1) =~= lt.take(j as int).push(lt[j as int]));
        assert(triple_views(out@) =~= head + lt.take(j + 1));
    }
    assert(lt.take(m as int) =~= lt);
    out
}


// ---- the triple store ------------------------------------------------------

#[verifier::external_type_specification]
#[verifier::external_body]
pub struct ExStore(Store);

/// The triples inserted into the default graph of an oxigraph `Store`, one
/// per successful insert call, in call order, repeats included. Which of them
/// the store actually keeps is left to `turtle_text`.
pub uninterp spec fn store_inserts(store: Store) -> Seq<TripleView>;

/// Whether oxigraph's `NamedNode::new` accepts a string as an IRI
/// (RFC 3987 validation).
pub uninterp spec fn iri_is_valid(iri: Seq<char>) -> bool;

/// The Turtle text that oxigraph writes for the default graph of a fresh
/// in-memory store into which these triples were inserted, in this order.
/// (The store keeps a triple once; it tells strings apart by their encoded
/// form, a 128-bit hash for long strings, so what it keeps is a function of
/// the insertions.)
pub uninterp spec fn turtle_text(triples: Seq<TripleView>) -> Seq<char>;

/// The IRIs of a triple are all valid: its subject, its predicate, and its
/// object when that is an IRI.
pub open spec fn iris_valid(t: TripleView) -> bool {
    &&& iri_is_valid(t.subject)
    &&& iri_is_valid(t.predicate)
    &&& t.object matches ObjectView::Iri(o) ==> iri_is_valid(o)
}

/// Every triple of the composition has valid IRIs.
pub open spec fn all_iris_valid(c: CompositionView) -> bool {
    forall|i: int| 0 <= i < spec_triples(c).len() ==> iris_valid(#[trigger] spec_triples(c)[i])
}

/// Calls `oxigraph::store::Store::new`, which opens an empty in-memory store
/// (without its `rocksdb` feature, the only storage oxigraph has, and whose
/// creation returns `Ok`). Claims that it succeeds with a store into which
/// nothing was inserted.
#[verifier::external_body]
fn store_new() -> (r: Result<Store, RdfError>)
    ensures
        r is Ok,
        r matches Ok(s) ==> store_inserts(s) == Seq::<TripleView>::empty(),
{
    Store::new().map_err(|_| RdfError::Storage)
}

/// Inserts a triple into the default graph of `store`: builds its IRIs with
/// `oxigraph::model::NamedNode::new`, a literal object with
/// `Literal::new_simple_literal`, the quad with `Quad::new`, and calls
/// `Store::insert`. Claims: it succeeds exactly when the IRIs are valid, and
/// refuses an invalid one with `InvalidIri` (an in-memory store's insert
/// returns `Ok`); on success the triple is one more insertion into the store.
/// Whether the store kept it as a new quad (the `bool`) is not stated.
#[verifier::external_body]
fn store_insert(store: &mut Store, t: &Triple) -> (r: Result<bool, RdfError>)
    ensures
        !(iri_is_valid(t@.subject) && iri_is_valid(t@.predicate) && (t@.object matches ObjectView::Iri(
            o,
        ) ==> iri_is_valid(o))) <==> r matches Err(RdfError::InvalidIri),
        r is Err ==> r matches Err(RdfError::InvalidIri),
        r is Ok ==> store_inserts(*final(store)) == store_inserts(*old(store)).push(t@),
{
    let s = NamedNode::new(t.subject.as_str()).map_err(|_| RdfError::InvalidIri)?;
    let p = NamedNode::new(t.predicate.as_str()).map_err(|_| RdfError::InvalidIri)?;
    let o: Term = match &t.object {
        TripleObject::Iri(i) => NamedNode::new(i.as_str()).map_err(|_| RdfError::InvalidIri)?.into(),
        TripleObject::Literal(v) => Literal::new_simple_literal(v.as_str()).into(),
    };
    store.insert(&Quad::new(s, p, o, GraphName::DefaultGraph)).map_err(|_| RdfError::Storage)
}

/// Calls `Store::dump_graph_to_writer` on the default graph with the Turtle
/// format into a `Vec<u8>`, and decodes the bytes with `String::from_utf8`.
/// Claims that it succeeds, with the Turtle text of the store's insertions:
/// the store is in memory (no `rocksdb` feature), the Turtle serializer fails
/// only on a failed write, writing into a `Vec<u8>` does not fail, and what it
/// writes is formatted text, hence UTF-8.
#[verifier::external_body]
fn store_dump_turtle(store: &Store) -> (r: Result<String, RdfError>)
    ensures
        r is Ok,
        r matches Ok(s) ==> s@ == turtle_text(store_inserts(*store)),
{
    let buf = store.dump_graph_to_writer(GraphNameRef::DefaultGraph, RdfFormat::Turtle, Vec::new())
        .map_err(|_| RdfError::Serialization)?;
    String::from_utf8(buf).map_err(|_| RdfError::Serialization)
}

/// Serialises the composition as Turtle. It fails, with `InvalidIri`,
/// exactly when a triple has an invalid IRI; otherwise it returns the Turtle
/// of the composition's triples.
pub fn to_turtle(comp: &Composition) -> (r: Result<String, RdfError>)
    ensures
        !all_iris_valid(comp@) <==> r is Err,
        r is Err ==> r matches Err(RdfError::InvalidIri),
        r matches Ok(s) ==> s@ == turtle_text(spec_triples(comp@)),
{
    let triples = composition_triples(comp);
    let ghost tv = triple_views(triples@);
    let mut store = store_new()?;
    let n = triples.len();
    assert(tv.take(0) =~= Seq::<TripleView>::empty());
    for i in 0..n
        invariant
            n == triples@.len(),
            tv == triple_views(triples@),
            tv == spec_triples(comp@),
            store_inserts(store) == tv.take(i as int),
            forall|j: int| 0 <= j < i ==> iris_valid(#[trigger] tv[j]),
    {
        let t = &triples[i];
        assert(tv[i as int] == t@);
        match store_insert(&mut store, t) {
            Ok(_) => {},
            Err(e) => {
                assert(!iris_valid(spec_triples(comp@)[i as int]));
                return Err(e);
            },
        }
        assert(tv.take(i + 1) =~= tv.take(i as int).push(t@));
    }
    assert(tv.take(n as int) =~= tv);
    store_dump_turtle(&store)
}


// ---- every fact of the graph is a triple ----------------------------------------

/// How many triples an entity gives: its class, plus its version and its
/// placement layer where it has them.
pub open spec fn entity_fact_count(e: EntityView) -> nat {
    1 + (if e.version is Some { 1nat } else { 0nat }) + (if e.placement_layer is Some {
        1nat
    } else {
        0nat
    })
}

pub open spec fn entities_fact_count(es: Seq<EntityView>) -> nat
    decreases es.len(),
{
    if es.len() == 0 {
        0
    } else {
        entities_fact_count(es.drop_last()) + entity_fact_count(es.last())
    }
}

/// The class triple of an entity.
pub open spec fn class_triple(e: EntityView) -> TripleView {
    TripleView {
        subject: sx(e.name),
        predicate: "http://www.w3.org/1999/02/22-rdf-syntax-ns#type"@,
        object: ObjectView::Iri(sx(spec_entity_class(e.entity_type))),
    }
}

/// A literal-valued property triple of an entity.
pub open spec fn property_triple(e: EntityView, property: Seq<char>, value: Seq<char>) -> TripleView {
    TripleView { subject: sx(e.name), predicate: sx(property), object: ObjectView::Literal(value) }
}

proof fn lemma_entities_triples_hold(es: Seq<EntityView>)
    ensures
        spec_entities_triples(es).len() == entities_fact_count(es),
        forall|k: int| 0 <= k < es.len() ==> spec_entities_triples(es).contains(
            class_triple(#[trigger] es[k]),
        ),
        forall|k: int|
            0 <= k < es.len() && (#[trigger] es[k]).version is Some ==> spec_entities_triples(
                es,
            ).contains(property_triple(es[k], "version"@, es[k].version->0)),
        forall|k: int|
            0 <= k < es.len() && (#[trigger] es[k]).placement_layer is Some
                ==> spec_entities_triples(es).contains(
                property_triple(es[k], "placementLayer"@, es[k].placement_layer->0),
            ),
    decreases es.len(),
{
    if es.len() > 0 {
        let rest = es.drop_last();
        let e = es.last();
        lemma_entities_triples_hold(rest);
        let a = spec_entities_triples(rest);
        let t = spec_entity_triples(e);
        let all = spec_entities_triples(es);
        assert(all == a + t);
        assert(t[0] == class_triple(e));
        assert forall|x: TripleView| a.contains(x) implies all.contains(x) by {
            let i = choose|i: int| 0 <= i < a.len() && a[i] == x;
            assert(all[i] == x);
        }
        assert forall|i: int| 0 <= i < t.len() implies all.contains(#[trigger] t[i]) by {
            assert(all[a.len() + i] == t[i]);
        }
        assert(all.contains(class_triple(e)));
        if e.version is Some {
            assert(t[1] == property_triple(e, "version"@, e.version->0));
        }
        if e.placement_layer is Some {
            let n = t.len() - 1;
            assert(t[n] == property_triple(e, "placementLayer"@, e.placement_layer->0));
        }
        assert forall|k: int| 0 <= k < es.len() implies all.contains(class_triple(#[trigger] es[k])) by {
            if k < rest.len() {
                assert(es[k] == rest[k]);
            }
        }
        assert forall|k: int|
            0 <= k < es.len() && (#[trigger] es[k]).version is Some implies all.contains(
                property_triple(es[k], "version"@, es[k].version->0),
            ) by {
            if k < rest.len() {
                assert(es[k] == rest[k]);
            }
        }
        assert forall|k: int|
            0 <= k < es.len() && (#[trigger] es[k]).placement_layer is Some implies all.contains(
                property_triple(es[k], "placementLayer"@, es[k].placement_layer->0),
            ) by {
            if k < rest.len() {
                assert(es[k] == rest[k]);
            }
        }
    }
}

/// The triples hold the whole graph: each entity's class, version and
/// placement layer (where it has them), so many triples and no more for the
/// entities, and then one triple per link, in the order of the links, made of
/// the link's subject, its predicate's term and its object, whatever the
/// predicate.
pub proof fn lemma_triples_hold_graph(c: CompositionView)
    ensures
        spec_triples(c).len() == entities_fact_count(c.entities) + c.links.len(),
        forall|k: int| 0 <= k < c.entities.len() ==> spec_triples(c).contains(
            class_triple(#[trigger] c.entities[k]),
        ),
        forall|k: int|
            0 <= k < c.entities.len() && (#[trigger] c.entities[k]).version is Some
                ==> spec_triples(c).contains(
                property_triple(c.entities[k], "version"@, c.entities[k].version->0),
            ),
        forall|k: int|
            0 <= k < c.entities.len() && (#[trigger] c.entities[k]).placement_layer is Some
                ==> spec_triples(c).contains(
                property_triple(c.entities[k], "placementLayer"@, c.entities[k].placement_layer->0),
            ),
        forall|i: int|
            0 <= i < c.links.len() ==> spec_triples(c)[entities_fact_count(c.entities) + i]
                == (TripleView {
                subject: sx((#[trigger] c.links[i]).subject),
                predicate: sx(spec_predicate_term(c.links[i].predicate)),
                object: ObjectView::Iri(sx(c.links[i].object)),
            }),
{
    lemma_entities_triples_hold(c.entities);
    let a = spec_entities_triples(c.entities);
    let all = spec_triples(c);
    assert forall|x: TripleView| a.contains(x) implies all.contains(x) by {
        let i = choose|i: int| 0 <= i < a.len() && a[i] == x;
        assert(all[i] == x);
    }
    assert forall|k: int| 0 <= k < c.entities.len() implies all.contains(
        class_triple(#[trigger] c.entities[k]),
    ) by {
        assert(a.contains(class_triple(c.entities[k])));
    }
    assert forall|k: int|
        0 <= k < c.entities.len() && (#[trigger] c.entities[k]).version is Some implies all.contains(
            property_triple(c.entities[k], "version"@, c.entities[k].version->0),
        ) by {
        assert(a.contains(property_triple(c.entities[k], "version"@, c.entities[k].version->0)));
    }
    assert forall|k: int|
        0 <= k < c.entities.len() && (#[trigger] c.entities[k]).placement_layer is Some
            implies all.contains(
            property_triple(c.entities[k], "placementLayer"@, c.entities[k].placement_layer->0),
        ) by {
        assert(a.contains(
            property_triple(c.entities[k], "placementLayer"@, c.entities[k].placement_layer->0),
        ));
    }
}

} // verus!
