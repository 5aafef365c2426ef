use sporaxis::error::RdfError;
use sporaxis::ontology::{Composition, Entity, EntityType, Link, LinkMeta, Predicate};
use sporaxis::ttl::{composition_triples, entity_class, predicate_term, to_turtle, TripleObject};

fn small_graph() -> Composition {
    Composition {
        entities: vec![
            Entity {
                name: "ck-allinone".into(),
                entity_type: EntityType::FleetImage,
                version: Some("v0.7.22".into()),
                placement_layer: None,
            },
            Entity {
                name: "pgrdf".into(),
                entity_type: EntityType::DbExtension,
                version: Some("0.6.17".into()),
                placement_layer: Some("sha256:abc".into()),
            },
        ],
        links: vec![Link {
            subject: "ck-allinone".into(),
            predicate: Predicate::InheritsFrom,
            object: "pg-base".into(),
            meta: Default::default(),
        }],
    }
}

#[test]
fn emits_turtle_for_a_small_graph() {
    let comp = small_graph();
    let ttl = to_turtle(&comp).expect("turtle");
    assert!(ttl.contains("ck-allinone"), "subject present");
    assert!(ttl.contains("0.6.17"), "version literal present");
    assert!(ttl.contains("INHERITS_FROM"), "predicate present");
    assert!(ttl.contains("placementLayer"), "placement layer present");
}

#[test]
fn triples_follow_entities_then_links() {
    let comp = small_graph();
    let t = composition_triples(&comp);
    assert_eq!(t.len(), 6);
    assert_eq!(t[0].subject, "https://sporaxis.dev/ontology/compose#ck-allinone");
    assert_eq!(t[0].predicate, "http://www.w3.org/1999/02/22-rdf-syntax-ns#type");
    assert!(matches!(&t[0].object, TripleObject::Iri(o) if o == "https://sporaxis.dev/ontology/compose#FleetImage"));
    assert_eq!(t[1].predicate, "https://sporaxis.dev/ontology/compose#version");
    assert!(matches!(&t[1].object, TripleObject::Literal(v) if v == "v0.7.22"));
    assert!(matches!(&t[3].object, TripleObject::Literal(v) if v == "0.6.17"));
    assert_eq!(t[4].predicate, "https://sporaxis.dev/ontology/compose#placementLayer");
    assert_eq!(t[5].predicate, "https://sporaxis.dev/ontology/compose#INHERITS_FROM");
    assert!(matches!(&t[5].object, TripleObject::Iri(o) if o == "https://sporaxis.dev/ontology/compose#pg-base"));
}

#[test]
fn turtle_names_classes_and_literals() {
    let ttl = to_turtle(&small_graph()).unwrap();
    assert!(ttl.contains("https://sporaxis.dev/ontology/compose#DBExtension"));
    assert!(ttl.contains("\"v0.7.22\""));
    assert!(ttl.contains("sha256:abc"));
}

#[test]
fn turtle_is_deterministic_and_ignores_repeated_triples() {
    let mut comp = small_graph();
    let once = to_turtle(&comp).unwrap();
    assert_eq!(once, to_turtle(&comp).unwrap());
    comp.links.push(Link {
        subject: "ck-allinone".into(),
        predicate: Predicate::InheritsFrom,
        object: "pg-base".into(),
        meta: LinkMeta::default(),
    });
    assert_eq!(to_turtle(&comp).unwrap(), once);
}

#[test]
fn invalid_iri_is_refused() {
    let comp = Composition {
        entities: vec![Entity {
            name: "has space".into(),
            entity_type: EntityType::Process,
            version: None,
            placement_layer: None,
        }],
        links: vec![],
    };
    assert!(matches!(to_turtle(&comp), Err(RdfError::InvalidIri)));
}

#[test]
fn vocabulary_terms() {
    assert_eq!(entity_class(EntityType::UpstreamImage), "UpstreamImage");
    assert_eq!(entity_class(EntityType::DbExtension), "DBExtension");
    assert_eq!(entity_class(EntityType::Process), "Process");
    assert_eq!(predicate_term(Predicate::ShimsFor), "SHIMS_FOR");
    assert_eq!(predicate_term(Predicate::SmokesBy), "SMOKES_BY");
    assert_eq!(predicate_term(Predicate::CopiesFrom), "COPIES_FROM");
}
