//! Composing a bundle: which outputs are written, under which names, in
//! which order, for the chosen mode. The files themselves are written by the
//! caller, under `<composition>/out/`.

use vstd::prelude::*;
use crate::error::{ComposeError, RdfError};
use crate::ontology::{Composition, CompositionView, Entity, EntityView, Predicate};
use crate::render::{
    file_views, render_bundle_yaml, render_dockerfile, render_manifest_plan, render_s6,
    render_smoke, resolve_mode, root_fleet, spec_bundle_yaml, spec_dockerfile, spec_edges,
    spec_manifest_plan, spec_resolve_mode, spec_root_fleet, spec_s6_files, spec_smoke,
    string_views,
};
use crate::text::str_eq;
use crate::ttl::{all_iris_valid, spec_triples, to_turtle, turtle_text};

verus! {

/// The outputs of one composition.
#[derive(Debug)]
pub struct EmitPlan {
    /// The mode that was chosen.
    pub mode: String,
    /// The name of the bundle's root fleet image.
    pub root_name: String,
    /// The files to write, as relative paths and contents, in order.
    pub files: Vec<(String, String)>,
    /// The outputs the summary line names.
    pub wrote: Vec<String>,
    /// Set when the mode is unknown: the files are still written, then
    /// composing fails with this mode.
    pub unknown_mode: Option<String>,
}

pub struct EmitPlanView {
    pub mode: Seq<char>,
    pub root_name: Seq<char>,
    pub files: Seq<(Seq<char>, Seq<char>)>,
    pub wrote: Seq<Seq<char>>,
    pub unknown_mode: Option<Seq<char>>,
}

impl View for EmitPlan {
    type V = EmitPlanView;

    open spec fn view(&self) -> EmitPlanView {
        EmitPlanView {
            mode: self.mode@,
            root_name: self.root_name@,
            files: file_views(self.files@),
            wrote: string_views(self.wrote@),
            unknown_mode: crate::ontology::opt_view(self.unknown_mode),
        }
    }
}

/// The files of both modes: the RDF graph, the layer bill of materials and
/// the smoke script.
pub open spec fn spec_common_files(c: CompositionView, root: EntityView, turtle: Seq<char>) -> Seq<
    (Seq<char>, Seq<char>),
> {
    seq![
        ("composition.ttl"@, turtle),
        ("bundle.yaml"@, spec_bundle_yaml(c, root)),
        ("smoke-"@ + root.name + ".sh"@, spec_smoke(c)),
    ]
}

/// The outputs for `mode`: the common files, then the Dockerfile and the s6
/// tree (dockerfile mode) or the layer plan (manifest mode); an unknown mode
/// writes only the common files and is reported.
pub open spec fn spec_plan(c: CompositionView, root: EntityView, mode: Seq<char>, turtle: Seq<char>) -> EmitPlanView {
    let common = spec_common_files(c, root, turtle);
    let wrote = seq!["composition.ttl"@, "bundle.yaml"@];
    if mode == "dockerfile"@ {
        EmitPlanView {
            mode,
            root_name: root.name,
            files: common + seq![("Dockerfile"@, spec_dockerfile(c, root))] + spec_s6_files(
                spec_edges(c, root.name, Predicate::Supervises),
            ),
            wrote: wrote + seq!["Dockerfile"@, "s6-services/"@],
            unknown_mode: None,
        }
    } else if mode == "manifest"@ {
        EmitPlanView {
            mode,
            root_name: root.name,
            files: common + seq![("manifest.plan.txt"@, spec_manifest_plan(c, root))],
            wrote: wrote + seq!["manifest.plan.txt"@],
            unknown_mode: None,
        }
    } else {
        EmitPlanView { mode, root_name: root.name, files: common, wrote, unknown_mode: Some(mode) }
    }
}

/// Lays out the outputs of the bundle rooted at `root` in `mode`, given its
/// Turtle text.
pub fn assemble_plan(comp: &Composition, root: &Entity, mode: &str, turtle: String) -> (r: EmitPlan)
    ensures
        r@ == spec_plan(comp@, root@, mode@, turtle@),
{
    let ghost tv = turtle@;
    let mut files: Vec<(String, String)> = Vec::new();
    files.push((String::from_str("composition.ttl"), turtle));
    let bundle = match render_bundle_yaml(comp, root) {
        Ok(s) => s,
        Err(_) => String::new(),
    };
    files.push((String::from_str("bundle.yaml"), bundle));
    let mut smoke_name = String::from_str("smoke-");
    smoke_name.append(root.name.as_str());
    smoke_name.append(".sh");
    let smoke = match render_smoke(comp) {
        Ok(s) => s,
        Err(_) => String::new(),
    };
    files.push((smoke_name, smoke));
    assert(file_views(files@) =~= spec_common_files(comp@, root@, tv));
    let mut wrote: Vec<String> = Vec::new();
    wrote.push(String::from_str("composition.ttl"));
    wrote.push(String::from_str("bundle.yaml"));
    let ghost common = file_views(files@);
    let ghost wrote0 = string_views(wrote@);
    assert(wrote0 =~= seq!["composition.ttl"@, "bundle.yaml"@]);
    if str_eq(mode, "dockerfile") {
        let dockerfile = match render_dockerfile(comp, root) {
            Ok(s) => s,
            Err(_) => String::new(),
        };
        files.push((String::from_str("Dockerfile"), dockerfile));
        let ghost with_dockerfile = file_views(files@);
        assert(with_dockerfile =~= common + seq![("Dockerfile"@, spec_dockerfile(comp@, root@))]);
        let s6 = render_s6(comp, root);
        let ghost s6v = file_views(s6@);
        let mut j: usize = 0;
        while j < s6.len()
            invariant
                j <= s6@.len(),
                s6v == file_views(s6@),
                file_views(files@) == with_dockerfile + s6v.take(j as int),
            decreases s6@.len() - j,
        {
            let f = &s6[j];
            let ghost prev = file_views(files@);
            let a = f.0.clone();
            let b = f.1.clone();
            assert(s6v[j as int] == (a@, b@));
            files.push((a, b));
            assert(file_views(files@) =~= prev.push(s6v[j as int]));
            assert(s6v.take(j + 1) =~= s6v.take(j as int).push(s6v[j as int]));
            assert(file_views(files@) =~= with_dockerfile + s6v.take(j + 1));
            j = j + 1;
        }
        assert(s6v.take(s6@.len() as int) =~= s6v);
        wrote.push(String::from_str("Dockerfile"));
        wrote.push(String::from_str("s6-services/"));
        assert(string_views(wrote@) =~= wrote0 + seq!["Dockerfile"@, "s6-services/"@]);
        EmitPlan {
            mode: String::from_str(mode),
            root_name: root.name.clone(),
            files,
            wrote,
            unknown_mode: None,
        }
    } else if str_eq(mode, "manifest") {
        let plan = match render_manifest_plan(comp, root) {
            Ok(s) => s,
            Err(_) => String::new(),
        };
        files.push((String::from_str("manifest.plan.txt"), plan));
        assert(file_views(files@) =~= common + seq![
            ("manifest.plan.txt"@, spec_manifest_plan(comp@, root@)),
        ]);
        wrote.push(String::from_str("manifest.plan.txt"));
        assert(string_views(wrote@) =~= wrote0 + seq!["manifest.plan.txt"@]);
        EmitPlan {
            mode: String::from_str(mode),
            root_name: root.name.clone(),
            files,
            wrote,
            unknown_mode: None,
        }
    } else {
        EmitPlan {
            mode: String::from_str(mode),
            root_name: root.name.clone(),
            files,
            wrote,
            unknown_mode: Some(String::from_str(mode)),
        }
    }
}

/// The outcome of composing: nothing when there is no root or an IRI is
/// invalid, else the plan of the root in the resolved mode, with the Turtle of
/// the composition.
pub open spec fn spec_emit_plan(c: CompositionView, mode: Seq<char>) -> Option<EmitPlanView> {
    match spec_root_fleet(c) {
        Some(i) => if all_iris_valid(c) {
            Some(
                spec_plan(
                    c,
                    c.entities[i],
                    spec_resolve_mode(c, mode),
                    turtle_text(spec_triples(c)),
                ),
            )
        } else {
            None
        },
        None => None,
    }
}

/// Plans a bundle's outputs in the chosen mode: resolves the mode, finds the
/// root fleet image, serialises the graph as Turtle and lays out the files.
/// Fails when there is no root, or when an IRI is invalid; otherwise the plan
/// is a function of the graph and the mode alone, so the same graph composes
/// to the same files, byte for byte.
pub fn plan_emit(comp: &Composition, mode: &str) -> (r: Result<EmitPlan, ComposeError>)
    ensures
        spec_root_fleet(comp@) is None ==> r matches Err(ComposeError::NoRootFleet),
        spec_root_fleet(comp@) is Some && !all_iris_valid(comp@) ==> r matches Err(
            ComposeError::Rdf(RdfError::InvalidIri),
        ),
        r is Ok <==> spec_emit_plan(comp@, mode@) is Some,
        r matches Ok(p) ==> p@ == spec_emit_plan(comp@, mode@)->0,
{
    let chosen = resolve_mode(comp, mode);
    let root = match root_fleet(comp) {
        Some(e) => e,
        None => return Err(ComposeError::NoRootFleet),
    };
    let turtle = match to_turtle(comp) {
        Ok(t) => t,
        Err(e) => return Err(ComposeError::Rdf(e)),
    };
    Ok(assemble_plan(comp, root, chosen, turtle))
}

/// Resolving a mode a second time changes nothing: `auto` resolves to
/// `manifest` or `dockerfile`, which resolve to themselves.
pub proof fn lemma_resolve_mode_idempotent(c: CompositionView, mode: Seq<char>)
    ensures
        spec_resolve_mode(c, spec_resolve_mode(c, mode)) == spec_resolve_mode(c, mode),
{
    reveal_strlit("auto");
    reveal_strlit("manifest");
    reveal_strlit("dockerfile");
    assert("manifest"@ != "auto"@) by {
        assert("manifest"@.len() != "auto"@.len());
    }
    assert("dockerfile"@ != "auto"@) by {
        assert("dockerfile"@.len() != "auto"@.len());
    }
}

/// Composing in `auto` mode gives exactly what composing in the mode it
/// resolves to gives.
pub proof fn lemma_auto_is_its_resolved_mode(c: CompositionView)
    ensures
        spec_emit_plan(c, "auto"@) == spec_emit_plan(c, spec_resolve_mode(c, "auto"@)),
{
    lemma_resolve_mode_idempotent(c, "auto"@);
}

/// Whatever the mode, the plan writes the Turtle as `composition.ttl`, the
/// bill of materials as `bundle.yaml` and the smoke script as
/// `smoke-<root>.sh`, first and in that order. The `dockerfile` mode adds the
/// Dockerfile and two s6 files per process the root supervises; the
/// `manifest` mode adds only the layer plan; any other mode adds nothing and
/// is reported as unknown.
pub proof fn lemma_plan_files_by_mode(c: CompositionView, root: EntityView, mode: Seq<char>, turtle: Seq<char>)
    ensures
        ({
            let p = spec_plan(c, root, mode, turtle);
            &&& p.mode == mode
            &&& p.root_name == root.name
            &&& p.files.len() >= 3
            &&& p.files[0] == ("composition.ttl"@, turtle)
            &&& p.files[1] == ("bundle.yaml"@, spec_bundle_yaml(c, root))
            &&& p.files[2] == ("smoke-"@ + root.name + ".sh"@, spec_smoke(c))
            &&& p.wrote.len() >= 2 && p.wrote[0] == "composition.ttl"@ && p.wrote[1] == "bundle.yaml"@
            &&& mode == "dockerfile"@ ==> {
                &&& p.files.len() == 4 + 2 * spec_edges(c, root.name, Predicate::Supervises).len()
                &&& p.files[3] == ("Dockerfile"@, spec_dockerfile(c, root))
                &&& p.wrote == seq!["composition.ttl"@, "bundle.yaml"@, "Dockerfile"@, "s6-services/"@]
                &&& p.unknown_mode is None
            }
            &&& mode == "manifest"@ ==> {
                &&& p.files.len() == 4
                &&& p.files[3] == ("manifest.plan.txt"@, spec_manifest_plan(c, root))
                &&& p.wrote == seq!["composition.ttl"@, "bundle.yaml"@, "manifest.plan.txt"@]
                &&& p.unknown_mode is None
            }
            &&& mode != "dockerfile"@ && mode != "manifest"@ ==> {
                &&& p.files.len() == 3
                &&& p.wrote == seq!["composition.ttl"@, "bundle.yaml"@]
                &&& p.unknown_mode == Some(mode)
            }
        }),
{
    crate::render::lemma_s6_pairs(spec_edges(c, root.name, Predicate::Supervises));
    reveal_strlit("manifest");
    reveal_strlit("dockerfile");
    assert("manifest"@.len() != "dockerfile"@.len());
}

} // verus!
