use sporaxis::compose::plan_emit;
use sporaxis::error::{ComposeError, RdfError};
use sporaxis::ontology::{Composition, Entity, EntityType, Link, LinkMeta, Predicate};

fn ent(name: &str, t: EntityType, placement: Option<&str>) -> Entity {
    Entity {
        name: name.into(),
        entity_type: t,
        version: Some("1".into()),
        placement_layer: placement.map(Into::into),
    }
}

fn lk(s: &str, p: Predicate, o: &str) -> Link {
    Link { subject: s.into(), predicate: p, object: o.into(), meta: LinkMeta::default() }
}

fn graph() -> Composition {
    Composition {
        entities: vec![
            ent("ck", EntityType::FleetImage, None),
            ent("ext", EntityType::DbExtension, Some("sha256:1")),
            ent("nats", EntityType::Process, None),
        ],
        links: vec![lk("ck", Predicate::Supervises, "nats"), lk("nats", Predicate::SmokesBy, "ping")],
    }
}

fn names(files: &[(String, String)]) -> Vec<&str> {
    files.iter().map(|f| f.0.as_str()).collect()
}

#[test]
fn dockerfile_mode_writes_the_build_and_the_service_tree() {
    let plan = plan_emit(&graph(), "dockerfile").unwrap();
    assert_eq!(plan.mode, "dockerfile");
    assert_eq!(plan.root_name, "ck");
    assert_eq!(
        names(&plan.files),
        vec![
            "composition.ttl",
            "bundle.yaml",
            "smoke-ck.sh",
            "Dockerfile",
            "s6-services/nats/type",
            "s6-services/nats/run"
        ]
    );
    assert_eq!(plan.wrote, vec!["composition.ttl", "bundle.yaml", "Dockerfile", "s6-services/"]);
    assert!(plan.unknown_mode.is_none());
}

#[test]
fn auto_mode_chooses_manifest_when_everything_is_placed() {
    let plan = plan_emit(&graph(), "auto").unwrap();
    assert_eq!(plan.mode, "manifest");
    assert_eq!(
        names(&plan.files),
        vec!["composition.ttl", "bundle.yaml", "smoke-ck.sh", "manifest.plan.txt"]
    );
    assert!(plan.files[3].1.contains("  - ext -> sha256:1\n"));
}

#[test]
fn unknown_mode_writes_the_common_files_then_fails() {
    let plan = plan_emit(&graph(), "tarball").unwrap();
    assert_eq!(names(&plan.files), vec!["composition.ttl", "bundle.yaml", "smoke-ck.sh"]);
    assert_eq!(plan.unknown_mode.as_deref(), Some("tarball"));
    let msg = ComposeError::UnknownMode("tarball".into()).message();
    assert_eq!(msg, "unknown mode 'tarball' (expected dockerfile | manifest | auto)");
}

#[test]
fn no_root_fleet_is_an_error() {
    let c = Composition { entities: vec![ent("x", EntityType::Process, None)], links: vec![] };
    let e = plan_emit(&c, "auto").unwrap_err();
    assert!(matches!(e, ComposeError::NoRootFleet));
    assert_eq!(
        e.message(),
        "no root oci:FleetImage (a FleetImage not inherited by another) to compose"
    );
}

#[test]
fn an_invalid_iri_stops_the_compose() {
    let mut c = graph();
    c.links.push(lk("ck", Predicate::CopiesFrom, "not an iri"));
    let e = plan_emit(&c, "dockerfile").unwrap_err();
    assert!(matches!(e, ComposeError::Rdf(RdfError::InvalidIri)));
    assert_eq!(e.message(), "named node");
}

#[test]
fn composing_twice_gives_the_same_files() {
    let a = plan_emit(&graph(), "dockerfile").unwrap();
    let b = plan_emit(&graph(), "dockerfile").unwrap();
    assert_eq!(a.files, b.files);
    assert_eq!(a.wrote, b.wrote);
}

#[test]
fn auto_mode_equals_its_resolved_mode() {
    let a = plan_emit(&graph(), "auto").unwrap();
    let m = plan_emit(&graph(), "manifest").unwrap();
    assert_eq!(a.files, m.files);
    assert_eq!(a.mode, m.mode);
}
