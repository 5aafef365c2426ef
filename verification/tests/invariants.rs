use sporaxis::invariants::{check_all, InvariantCode};
use sporaxis::ontology::{Composition, Entity, EntityType, Link, LinkMeta, Predicate};

fn ent(name: &str, t: EntityType) -> Entity {
    Entity { name: name.into(), entity_type: t, version: None, placement_layer: None }
}

fn lk(s: &str, p: Predicate, o: &str) -> Link {
    Link { subject: s.into(), predicate: p, object: o.into(), meta: LinkMeta::default() }
}

#[test]
fn empty_graph_passes() {
    let c = Composition::load(vec![], vec![]).unwrap();
    assert!(c.entities.is_empty() && c.links.is_empty());
    assert!(check_all(&c).is_ok());
}

#[test]
fn a_sound_graph_passes() {
    let c = Composition {
        entities: vec![
            ent("ck", EntityType::FleetImage),
            ent("pg", EntityType::UpstreamImage),
            ent("nats", EntityType::Process),
        ],
        links: vec![
            lk("ck", Predicate::InheritsFrom, "pg"),
            lk("ck", Predicate::Builds, "relay"),
            lk("nats", Predicate::SmokesBy, "ping"),
        ],
    };
    assert!(check_all(&c).is_ok());
}

#[test]
fn upstream_is_never_built() {
    let c = Composition {
        entities: vec![ent("pg", EntityType::UpstreamImage)],
        links: vec![lk("pg", Predicate::Builds, "ext")],
    };
    let v = check_all(&c).unwrap_err();
    assert_eq!(v.code, InvariantCode::I1);
    assert_eq!(v.report(), "I1 pg BUILDS ext an oci:UpstreamImage is never compiled");
}

#[test]
fn upstream_is_never_shimmed() {
    let c = Composition {
        entities: vec![ent("pg", EntityType::UpstreamImage)],
        links: vec![lk("pg", Predicate::ShimsFor, "x")],
    };
    let v = check_all(&c).unwrap_err();
    assert_eq!(v.code, InvariantCode::I2);
    assert_eq!(v.report(), "I2 pg SHIMS_FOR x an oci:UpstreamImage is never patched");
}

#[test]
fn process_needs_a_smoke() {
    let c = Composition { entities: vec![ent("nats", EntityType::Process)], links: vec![] };
    let v = check_all(&c).unwrap_err();
    assert_eq!(v.code, InvariantCode::I5);
    assert_eq!(v.report(), "I5 nats SMOKES_BY a svc:Process needs a SMOKES_BY");
}

#[test]
fn copying_an_inherited_base_is_a_duplicate_pull() {
    let c = Composition {
        entities: vec![ent("ck", EntityType::FleetImage)],
        links: vec![lk("ck", Predicate::InheritsFrom, "base"), lk("ck", Predicate::CopiesFrom, "base")],
    };
    let v = check_all(&c).unwrap_err();
    assert_eq!(v.code, InvariantCode::I6);
    assert_eq!(v.subject, "ck");
    assert_eq!(v.object.as_deref(), Some("base"));
}

#[test]
fn first_violation_is_reported_in_invariant_order() {
    let c = Composition {
        entities: vec![ent("nats", EntityType::Process), ent("pg", EntityType::UpstreamImage)],
        links: vec![lk("pg", Predicate::ShimsFor, "a"), lk("pg", Predicate::Builds, "b")],
    };
    let v = check_all(&c).unwrap_err();
    assert_eq!(v.code, InvariantCode::I1);
    assert_eq!(v.object.as_deref(), Some("b"));
}
