use sporaxis::error::LoadError;
use sporaxis::ontology::{
    ends_with, Composition, Entity, EntityType, Link, LinkMeta, MetaMap, MetaValue, Predicate,
};
use sporaxis::text::{str_eq, str_lt};

#[test]
fn meta_map_gives_back_what_was_inserted() {
    let mut m = MetaMap::new();
    assert!(m.get("kind").is_none());
    m.insert("kind".to_string(), MetaValue::Text("go".into()));
    m.insert("package".to_string(), MetaValue::Other);
    m.insert("kind".to_string(), MetaValue::Text("rust".into()));
    assert!(matches!(m.get("kind"), Some(MetaValue::Text(s)) if s == "rust"));
    assert!(matches!(m.get("package"), Some(MetaValue::Other)));
    assert!(m.get("mount_at").is_none());
}

#[test]
fn strings_order_lexicographically() {
    assert!(str_lt("a", "b"));
    assert!(str_lt("ab", "abc"));
    assert!(!str_lt("abc", "ab"));
    assert!(!str_lt("same", "same"));
    assert!(str_lt("", "x"));
    assert!(str_lt("Z", "a"));
    assert!(str_lt("é", "ê"));
    assert!(str_eq("same", "same"));
    assert!(!str_eq("same", "sam"));
}

fn kernel(path: &str, name: &str, t: EntityType) -> (String, Entity) {
    (
        path.to_string(),
        Entity { name: name.into(), entity_type: t, version: None, placement_layer: None },
    )
}

fn link(file: &str, s: &str, p: Predicate, o: &str) -> (String, Link) {
    (
        file.to_string(),
        Link { subject: s.into(), predicate: p, object: o.into(), meta: LinkMeta::default() },
    )
}

#[test]
fn load_assembles_the_declared_graph() {
    let c = Composition::load(
        vec![
            kernel("ck/kernel.yaml", "ck", EntityType::FleetImage),
            kernel("kernel.yaml", "pg", EntityType::UpstreamImage),
        ],
        vec![link("ck.INHERITS_FROM.pg.yaml", "ck", Predicate::InheritsFrom, "pg")],
    )
    .unwrap();
    assert_eq!(c.entities.len(), 2);
    assert_eq!(c.entities[0].name, "ck");
    assert_eq!(c.entities[1].entity_type, EntityType::UpstreamImage);
    assert_eq!(c.links.len(), 1);
    assert_eq!(c.links[0].object, "pg");
}

#[test]
fn load_refuses_a_misnamed_kernel() {
    let e = Composition::load(
        vec![
            kernel("ck/kernel.yaml", "ck", EntityType::FleetImage),
            kernel("pg/image.yaml", "pg", EntityType::UpstreamImage),
            kernel("x/notkernel.yaml", "x", EntityType::Process),
        ],
        vec![link("bad.yaml", "ck", Predicate::InheritsFrom, "pg")],
    )
    .unwrap_err();
    assert!(matches!(&e, LoadError::MisnamedKernel(p) if p == "pg/image.yaml"));
    assert_eq!(e.message(), "kernels/pg/image.yaml: a kernel file must be named kernel.yaml");
}

#[test]
fn load_refuses_a_link_not_named_after_itself() {
    let e = Composition::load(
        vec![kernel("ck/kernel.yaml", "ck", EntityType::FleetImage)],
        vec![
            link("ck.BUILDS.relay.yaml", "ck", Predicate::Builds, "relay"),
            link("ck.COPIES_FROM.pg.yaml", "ck", Predicate::InheritsFrom, "pg"),
        ],
    )
    .unwrap_err();
    assert!(matches!(&e, LoadError::MisnamedLink(n) if n == "ck.COPIES_FROM.pg.yaml"));
}

#[test]
fn suffix_test() {
    assert!(ends_with("a/kernel.yaml", "/kernel.yaml"));
    assert!(!ends_with("kernel.yaml", "/kernel.yaml"));
    assert!(ends_with("abc", ""));
}
