use std::collections::BTreeMap;

use sporaxis::ontology::{Composition, Entity, EntityType, Link, LinkMeta, MetaMap, MetaValue, Predicate};
use sporaxis::render::{
    by_name, dockerfile_fallback, edges, image_ref, join_strings, meta_paths, meta_str, render_bundle_yaml,
    render_dockerfile, render_manifest_plan, render_s6, render_smoke, resolve_mode, root_fleet,
};

fn ent(name: &str, t: EntityType, version: Option<&str>, placement: Option<&str>) -> Entity {
    Entity {
        name: name.into(),
        entity_type: t,
        version: version.map(Into::into),
        placement_layer: placement.map(Into::into),
    }
}

fn lk(subject: &str, p: Predicate, object: &str, rest: Vec<(&str, MetaValue)>) -> Link {
    let mut map = MetaMap::new();
    for (k, v) in rest {
        map.insert(k.to_string(), v);
    }
    Link {
        subject: subject.into(),
        predicate: p,
        object: object.into(),
        meta: LinkMeta { rest: map },
    }
}

fn text(s: &str) -> MetaValue {
    MetaValue::Text(s.into())
}

fn sample() -> Composition {
    Composition {
        entities: vec![
            ent("ck", EntityType::FleetImage, Some("v9"), None),
            ent("base", EntityType::FleetImage, Some("v1"), None),
            ent("relay", EntityType::StaticArtifact, Some("in-tree"), None),
            ent(
                "pgrdf",
                EntityType::DbExtension,
                Some("0.6.17"),
                Some("ghcr/pgrdf:0.6.17"),
            ),
            ent("nats", EntityType::Process, None, None),
        ],
        links: vec![
            lk("ck", Predicate::InheritsFrom, "base", vec![]),
            lk(
                "ck",
                Predicate::Builds,
                "relay",
                vec![("kind", text("go")), ("package", text("./cmd/relay"))],
            ),
            lk("ck", Predicate::CopiesFrom, "pgrdf", vec![("mount_at", text("/ext"))]),
            lk(
                "ck",
                Predicate::Supervises,
                "nats",
                vec![("run", text("nats-server -c /etc/nats.conf"))],
            ),
            lk("nats", Predicate::SmokesBy, "ping-4222", vec![]),
        ],
    }
}

#[test]
fn dockerfile_has_from_builds_copies_and_i7_labels() {
    let c = sample();
    let root = root_fleet(&c).unwrap();
    let df = render_dockerfile(&c, root).unwrap();
    assert!(df.contains("FROM base:v1"), "FROM from INHERITS_FROM base");
    assert!(df.contains("--go ./cmd/relay"), "BUILDS uses kind+package");
    assert!(
        df.contains("COPY --from=ghcr/pgrdf:0.6.17 / /ext"),
        "COPIES_FROM uses placement_layer ref + mount_at"
    );
    assert!(
        df.contains("LABEL org.opencontainers.image.version=v9"),
        "I7 label from the FleetImage version (v9), not the base (v1)"
    );
    assert!(!df.contains("version=v1"), "I7 never inherits the base version");
}

#[test]
fn s6_tree_has_a_run_per_supervised_process() {
    let c = sample();
    let root = root_fleet(&c).unwrap();
    let files: BTreeMap<String, String> = render_s6(&c, root).into_iter().collect();
    assert_eq!(
        files.get("s6-services/nats/type").map(String::as_str),
        Some("longrun\n")
    );
    assert!(files["s6-services/nats/run"].contains("nats-server -c /etc/nats.conf"));
}

#[test]
fn bundle_yaml_lists_extensions_with_placement_and_processes() {
    let c = sample();
    let root = root_fleet(&c).unwrap();
    let y = render_bundle_yaml(&c, root).unwrap();
    assert!(y.contains("name: ck"));
    assert!(y.contains("placement_layer: ghcr/pgrdf:0.6.17"));
    assert!(y.contains("- nats"));
}

#[test]
fn smoke_has_a_line_per_smokes_by_edge() {
    let c = sample();
    let s = render_smoke(&c).unwrap();
    assert!(s.starts_with("#!/bin/sh"));
    assert!(s.contains("nats SMOKES_BY ping-4222"));
}

#[test]
fn rendering_is_deterministic() {
    let c = sample();
    let root = root_fleet(&c).unwrap();
    assert_eq!(
        render_dockerfile(&c, root).unwrap(),
        render_dockerfile(&c, root).unwrap()
    );
    assert_eq!(
        render_bundle_yaml(&c, root).unwrap(),
        render_bundle_yaml(&c, root).unwrap()
    );
}

#[test]
fn dockerfile_is_rendered_exactly() {
    let c = sample();
    let root = root_fleet(&c).unwrap();
    let df = render_dockerfile(&c, root).unwrap();
    let expected = "# Generated by sporaxis — do not edit; edit the composition and re-compose.\n\
# bundle: ck (v9)\n\
\n\
FROM base:v1\n\
\n\
# BUILDS relay (go)\n\
RUN sporaxis-build --go ./cmd/relay   # → relay\n\
\n\
COPY --from=ghcr/pgrdf:0.6.17 / /ext\n\
\n\
# I7 — labels derive only from the oci:FleetImage entity\n\
LABEL org.opencontainers.image.title=ck\n\
LABEL org.opencontainers.image.version=v9\n\
\n\
# s6 service tree (SUPERVISES) — see out/s6-services/\n\
COPY s6-services/ /etc/s6-overlay/s6-rc.d/\n\
#   longrun: nats\n";
    assert_eq!(df, expected);
}

#[test]
fn dockerfile_defaults_without_metadata_or_base() {
    let c = Composition {
        entities: vec![
            ent("img", EntityType::FleetImage, None, None),
            ent("tool", EntityType::StaticArtifact, None, None),
        ],
        links: vec![
            lk("img", Predicate::Builds, "tool", vec![]),
            lk("img", Predicate::CopiesFrom, "tool", vec![]),
        ],
    };
    let root = root_fleet(&c).unwrap();
    let df = render_dockerfile(&c, root).unwrap();
    let expected = "# Generated by sporaxis — do not edit; edit the composition and re-compose.\n\
# bundle: img (?)\n\
\n\
# BUILDS tool (build)\n\
RUN sporaxis-build --build tool   # → tool\n\
\n\
COPY --from=tool:latest / /\n\
\n\
# I7 — labels derive only from the oci:FleetImage entity\n\
LABEL org.opencontainers.image.title=img\n\
LABEL org.opencontainers.image.version=0\n";
    assert_eq!(df, expected);
}

#[test]
fn copy_lists_paths_from_metadata() {
    let c = Composition {
        entities: vec![ent("img", EntityType::FleetImage, None, None)],
        links: vec![lk(
            "img",
            Predicate::CopiesFrom,
            "up",
            vec![(
                "paths",
                MetaValue::List(vec![Some("/a".into()), None, Some("/b".into())]),
            )],
        )],
    };
    let root = root_fleet(&c).unwrap();
    let df = render_dockerfile(&c, root).unwrap();
    assert!(df.contains("COPY --from=up /a /b /\n"));
}

#[test]
fn s6_files_come_in_type_and_run_pairs_sorted_by_process() {
    let c = Composition {
        entities: vec![ent("img", EntityType::FleetImage, None, None)],
        links: vec![
            lk("img", Predicate::Supervises, "zeta", vec![]),
            lk("img", Predicate::Supervises, "alpha", vec![("run", text("alpha -v"))]),
        ],
    };
    let root = root_fleet(&c).unwrap();
    let files = render_s6(&c, root);
    assert_eq!(files.len(), 4);
    assert_eq!(files[0], ("s6-services/alpha/type".to_string(), "longrun\n".to_string()));
    assert_eq!(
        files[1],
        (
            "s6-services/alpha/run".to_string(),
            "#!/command/execlineb -P\nalpha -v\n".to_string()
        )
    );
    assert_eq!(
        files[3],
        (
            "s6-services/zeta/run".to_string(),
            "#!/command/execlineb -P\nzeta\n".to_string()
        )
    );
}

#[test]
fn smoke_script_is_sorted_by_subject_then_object() {
    let c = Composition {
        entities: vec![],
        links: vec![
            lk("b", Predicate::SmokesBy, "x", vec![]),
            lk("a", Predicate::SmokesBy, "z", vec![]),
            lk("a", Predicate::SmokesBy, "y", vec![]),
            lk("a", Predicate::Builds, "q", vec![]),
        ],
    };
    let s = render_smoke(&c).unwrap();
    let expected = "#!/bin/sh\n\
# Generated by sporaxis — smoke assertions from SMOKES_BY edges.\n\
set -eu\n\
\n\
# a SMOKES_BY y\n\
echo 'smoke: a / y'\n\
# a SMOKES_BY z\n\
echo 'smoke: a / z'\n\
# b SMOKES_BY x\n\
echo 'smoke: b / x'\n";
    assert_eq!(s, expected);
}

#[test]
fn bundle_yaml_is_rendered_exactly() {
    let c = sample();
    let root = root_fleet(&c).unwrap();
    let y = render_bundle_yaml(&c, root).unwrap();
    let expected = "# Generated by sporaxis — the layer bill of materials.\n\
name: ck\n\
version: v9\n\
base: base:v1\n\
extensions:\n  pgrdf:\n    version: 0.6.17\n    placement_layer: ghcr/pgrdf:0.6.17\n\
components:\n  relay:\n    version: in-tree\n\
processes:\n  - nats\n";
    assert_eq!(y, expected);
}

#[test]
fn manifest_plan_lists_placed_layers_by_name() {
    let c = Composition {
        entities: vec![
            ent("img", EntityType::FleetImage, Some("1.0"), None),
            ent("zz", EntityType::DbExtension, None, Some("sha256:2")),
            ent("aa", EntityType::StaticArtifact, None, Some("sha256:1")),
        ],
        links: vec![],
    };
    let root = root_fleet(&c).unwrap();
    let p = render_manifest_plan(&c, root).unwrap();
    let expected = "# Generated by sporaxis — manifest-mode layer plan (by-digest, no build).\n\
# image: img (1.0)\n\
layers:\n  - aa -> sha256:1\n  - zz -> sha256:2\n";
    assert_eq!(p, expected);
}

#[test]
fn auto_mode_prefers_manifest_when_every_entity_is_placed() {
    let placed = Composition {
        entities: vec![
            ent("img", EntityType::FleetImage, None, None),
            ent("svc", EntityType::Process, None, None),
            ent("ext", EntityType::DbExtension, None, Some("sha256:1")),
        ],
        links: vec![],
    };
    assert_eq!(resolve_mode(&placed, "auto"), "manifest");
    let unplaced = Composition {
        entities: vec![ent("ext", EntityType::DbExtension, None, None)],
        links: vec![],
    };
    assert_eq!(resolve_mode(&unplaced, "auto"), "dockerfile");
    assert_eq!(resolve_mode(&unplaced, "manifest"), "manifest");
    assert_eq!(resolve_mode(&unplaced, "bogus"), "bogus");
}

#[test]
fn root_is_the_fleet_image_nobody_inherits() {
    let c = sample();
    assert_eq!(root_fleet(&c).unwrap().name, "ck");
    let cycle = Composition {
        entities: vec![
            ent("a", EntityType::FleetImage, None, None),
            ent("b", EntityType::FleetImage, None, None),
        ],
        links: vec![
            lk("a", Predicate::InheritsFrom, "b", vec![]),
            lk("b", Predicate::InheritsFrom, "a", vec![]),
        ],
    };
    assert!(root_fleet(&cycle).is_none());
}

#[test]
fn image_ref_prefers_placement_then_name_and_version() {
    let c = sample();
    assert_eq!(image_ref(&c, "pgrdf"), "ghcr/pgrdf:0.6.17");
    assert_eq!(image_ref(&c, "base"), "base:v1");
    assert_eq!(image_ref(&c, "nats"), "nats:latest");
    assert_eq!(image_ref(&c, "unknown"), "unknown");
    assert_eq!(by_name(&c, "relay").unwrap().entity_type, EntityType::StaticArtifact);
    assert!(by_name(&c, "nope").is_none());
}

#[test]
fn edges_are_sorted_by_object_and_stable() {
    let c = Composition {
        entities: vec![],
        links: vec![
            lk("s", Predicate::CopiesFrom, "b", vec![("mount_at", text("1"))]),
            lk("s", Predicate::CopiesFrom, "a", vec![]),
            lk("t", Predicate::CopiesFrom, "0", vec![]),
            lk("s", Predicate::CopiesFrom, "b", vec![("mount_at", text("2"))]),
        ],
    };
    let e = edges(&c, "s", Predicate::CopiesFrom);
    let objects: Vec<&str> = e.iter().map(|l| l.object.as_str()).collect();
    assert_eq!(objects, vec!["a", "b", "b"]);
    assert_eq!(meta_str(&e[1].meta, "mount_at"), Some("1"));
    assert_eq!(meta_str(&e[2].meta, "mount_at"), Some("2"));
}

#[test]
fn link_metadata_reads_text_and_paths() {
    let l = lk(
        "s",
        Predicate::CopiesFrom,
        "o",
        vec![("paths", text("/only")), ("n", MetaValue::Other)],
    );
    assert_eq!(meta_paths(&l.meta), vec!["/only".to_string()]);
    assert_eq!(meta_str(&l.meta, "n"), None);
    assert_eq!(meta_str(&l.meta, "paths"), Some("/only"));
    let empty = lk("s", Predicate::CopiesFrom, "o", vec![]);
    assert!(meta_paths(&empty.meta).is_empty());
    assert_eq!(
        join_strings(&vec!["a".to_string(), "b".to_string(), "c".to_string()], ", "),
        "a, b, c"
    );
    assert_eq!(join_strings(&vec![], ", "), "");
}

#[test]
fn dockerfile_fallback_names_the_unplaced_entity() {
    let c = sample();
    assert_eq!(dockerfile_fallback(&c).unwrap().name, "relay");
    let placed = Composition {
        entities: vec![ent("img", EntityType::FleetImage, None, None)],
        links: vec![],
    };
    assert!(dockerfile_fallback(&placed).is_none());
}

#[test]
fn links_of_other_subjects_leave_the_dockerfile_alone() {
    let c = sample();
    let root = root_fleet(&c).unwrap();
    let before = render_dockerfile(&c, root).unwrap();
    let mut c2 = sample();
    c2.links.push(lk("base", Predicate::Builds, "other", vec![]));
    c2.links.insert(0, lk("nats", Predicate::CopiesFrom, "pgrdf", vec![]));
    let root2 = root_fleet(&c2).unwrap();
    assert_eq!(render_dockerfile(&c2, root2).unwrap(), before);
}

#[test]
fn smoke_script_ignores_link_order() {
    let a = Composition {
        entities: vec![],
        links: vec![
            lk("b", Predicate::SmokesBy, "x", vec![]),
            lk("a", Predicate::Builds, "q", vec![]),
            lk("a", Predicate::SmokesBy, "y", vec![]),
        ],
    };
    let b = Composition {
        entities: vec![],
        links: vec![
            lk("a", Predicate::SmokesBy, "y", vec![]),
            lk("b", Predicate::SmokesBy, "x", vec![]),
        ],
    };
    assert_eq!(render_smoke(&a).unwrap(), render_smoke(&b).unwrap());
}

#[test]
fn bundle_yaml_ignores_entity_and_link_order() {
    let c = sample();
    let root = root_fleet(&c).unwrap();
    let before = render_bundle_yaml(&c, root).unwrap();
    let mut r = sample();
    r.entities.reverse();
    r.links.reverse();
    let root_r = by_name(&r, "ck").unwrap();
    assert_eq!(render_bundle_yaml(&r, root_r).unwrap(), before);
}

#[test]
fn only_the_root_labels_start_with_label() {
    let labels = |df: &str| -> Vec<String> {
        df.lines().filter(|l| l.starts_with("LABEL ")).map(String::from).collect()
    };
    let c = sample();
    let root = root_fleet(&c).unwrap();
    let full = render_dockerfile(&c, root).unwrap();
    let bare = Composition {
        entities: vec![ent("ck", EntityType::FleetImage, Some("v9"), None)],
        links: vec![lk(
            "ck",
            Predicate::Builds,
            "LABEL x",
            vec![("kind", text("LABEL")), ("package", text("LABEL y"))],
        )],
    };
    let bare_root = by_name(&bare, "ck").unwrap();
    let other = render_dockerfile(&bare, bare_root).unwrap();
    let expected = vec![
        "LABEL org.opencontainers.image.title=ck".to_string(),
        "LABEL org.opencontainers.image.version=v9".to_string(),
    ];
    assert_eq!(labels(&full), expected);
    assert_eq!(labels(&other), expected);
}
