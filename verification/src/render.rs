//! Output emitters. One composition renders to the dockerfile mode (a
//! multi-stage build) or the manifest mode (by-digest layer references);
//! both also render `bundle.yaml`, the smoke script and `composition.ttl`,
//! and the dockerfile mode adds the s6 service tree. Every output is a
//! function of the composition: the same graph renders byte for byte the
//! same.

use vstd::prelude::*;
use crate::ontology::{
    Composition, CompositionView, Entity, EntityType, EntityView, Link, LinkMeta, LinkView,
    MetaValue, MetaValueView, Predicate,
};
use crate::search::{first_index, lemma_first_index, lemma_first_index_found};
use crate::sorting::{
    entity_name_lt, entity_views, link_object_lt, link_subject_object_lt, link_views, sort_by,
    sort_entities, sort_links, lemma_link_object_order, lemma_sort_by, by_key, total_order,
    lemma_sorted_same_keys, lemma_link_subject_object_order, lemma_entity_name_order,
    lemma_filter_multiset, key_is, lemma_sort_stable, lemma_filter_none, strict_order,
};
use crate::text::{
    lemma_seq_lt_irreflexive, lemma_seq_lt_total, lemma_seq_lt_transitive, seq_lt, str_eq,
    has_infix, has_prefix, lemma_infix_self, lemma_infix_extend, lemma_prefix_extend,
};
use crate::error::ComposeError;

verus! {

/// `o`'s text, or `d` where it has none.
pub open spec fn or_default(o: Option<Seq<char>>, d: Seq<char>) -> Seq<char> {
    match o {
        Some(s) => s,
        None => d,
    }
}

// ---- mode selection --------------------------------------------------------

/// An entity that a manifest can reference without a build: it carries a
/// placement layer, or it is the fleet image or a process whose runtime a
/// placed layer supplies.
pub open spec fn layer_referenceable(e: EntityView) -> bool {
    e.placement_layer is Some || e.entity_type == EntityType::FleetImage || e.entity_type
        == EntityType::Process
}

pub open spec fn all_layer_referenceable(c: CompositionView) -> bool {
    forall|i: int| 0 <= i < c.entities.len() ==> layer_referenceable(#[trigger] c.entities[i])
}

/// The output mode: a mode other than `auto` is taken as given; `auto` is
/// `manifest` when every entity is layer-referenceable, else `dockerfile`.
pub open spec fn spec_resolve_mode(c: CompositionView, mode: Seq<char>) -> Seq<char> {
    if mode != "auto"@ {
        mode
    } else if all_layer_referenceable(c) {
        "manifest"@
    } else {
        "dockerfile"@
    }
}

/// Resolves the requested output mode.
pub fn resolve_mode<'a>(comp: &Composition, mode: &'a str) -> (r: &'a str)
    ensures
        r@ == spec_resolve_mode(comp@, mode@),
{
    if !str_eq(mode, "auto") {
        return mode;
    }
    let n = comp.entities.len();
    let mut i: usize = 0;
    while i < n
        invariant
            n == comp.entities@.len(),
            i <= n,
            mode@ == "auto"@,
            forall|j: int| 0 <= j < i ==> layer_referenceable(#[trigger] comp@.entities[j]),
        decreases n - i,
    {
        let e = &comp.entities[i];
        let placed = e.placement_layer.is_some() || matches!(
            e.entity_type,
            EntityType::FleetImage | EntityType::Process
        );
        if !placed {
            assert(!layer_referenceable(comp@.entities[i as int]));
            return "dockerfile";
        }
        i = i + 1;
    }
    "manifest"
}

pub open spec fn not_layer_referenceable() -> spec_fn(EntityView) -> bool {
    |e: EntityView| !layer_referenceable(e)
}

/// What forces `auto` to fall back to `dockerfile`: the first entity that is
/// not layer-referenceable. There is none exactly when `auto` resolves to
/// `manifest`.
pub fn dockerfile_fallback(comp: &Composition) -> (r: Option<&Entity>)
    ensures
        match first_index(comp@.entities, not_layer_referenceable()) {
            Some(i) => r matches Some(e) && e@ == comp@.entities[i],
            None => r is None,
        },
        r is None <==> all_layer_referenceable(comp@),
        r matches Some(e) ==> e@.placement_layer is None && e@.entity_type != EntityType::FleetImage
            && e@.entity_type != EntityType::Process,
        r is None <==> forall|i: int|
            0 <= i < comp@.entities.len() ==> (#[trigger] comp@.entities[i]).placement_layer is Some
                || comp@.entities[i].entity_type == EntityType::FleetImage
                || comp@.entities[i].entity_type == EntityType::Process,
{
    proof {
        lemma_fallback_is_first_unplaced(comp@);
    }
    let ghost p = not_layer_referenceable();
    let n = comp.entities.len();
    let mut i: usize = 0;
    while i < n
        invariant
            n == comp.entities@.len(),
            i <= n,
            p == not_layer_referenceable(),
            forall|j: int| 0 <= j < i ==> !p(#[trigger] comp@.entities[j]),
        decreases n - i,
    {
        let e = &comp.entities[i];
        let placed = e.placement_layer.is_some() || matches!(
            e.entity_type,
            EntityType::FleetImage | EntityType::Process
        );
        if !placed {
            proof {
                lemma_first_index(comp@.entities, p, i as int);
            }
            return Some(e);
        }
        i = i + 1;
    }
    proof {
        lemma_first_index(comp@.entities, p, n as int);
        assert forall|j: int| 0 <= j < comp@.entities.len() implies layer_referenceable(
            #[trigger] comp@.entities[j],
        ) by {
            assert(!p(comp@.entities[j]));
        }
    }
    None
}

// ---- graph helpers ---------------------------------------------------------

pub open spec fn named(name: Seq<char>) -> spec_fn(EntityView) -> bool {
    |e: EntityView| e.name == name
}

/// The index of the first entity called `name`.
pub open spec fn spec_by_name(c: CompositionView, name: Seq<char>) -> Option<int> {
    first_index(c.entities, named(name))
}

/// Some link inherits from the entity called `name`.
pub open spec fn is_inherited(c: CompositionView, name: Seq<char>) -> bool {
    exists|i: int|
        0 <= i < c.links.len() && (#[trigger] c.links[i]).predicate == Predicate::InheritsFrom
            && c.links[i].object == name
}

pub open spec fn root_candidate(c: CompositionView) -> spec_fn(EntityView) -> bool {
    |e: EntityView| e.entity_type == EntityType::FleetImage && !is_inherited(c, e.name)
}

/// The index of the bundle being composed: the first `oci:FleetImage` that no
/// other entity inherits.
pub open spec fn spec_root_fleet(c: CompositionView) -> Option<int> {
    first_index(c.entities, root_candidate(c))
}

fn inherited(comp: &Composition, name: &String) -> (r: bool)
    ensures
        r == is_inherited(comp@, name@),
{
    let n = comp.links.len();
    let mut i: usize = 0;
    while i < n
        invariant
            n == comp.links@.len(),
            i <= n,
            forall|j: int|
                0 <= j < i ==> !((#[trigger] comp@.links[j]).predicate == Predicate::InheritsFrom
                    && comp@.links[j].object == name@),
        decreases n - i,
    {
        let l = &comp.links[i];
        if l.predicate == Predicate::InheritsFrom && l.object == *name {
            assert(comp@.links[i as int].object == name@);
            return true;
        }
        i = i + 1;
    }
    false
}

/// The bundle being composed: a `oci:FleetImage` that no other entity inherits.
pub fn root_fleet(comp: &Composition) -> (r: Option<&Entity>)
    ensures
        match spec_root_fleet(comp@) {
            Some(i) => r matches Some(e) && e@ == comp@.entities[i],
            None => r is None,
        },
{
    let ghost p = root_candidate(comp@);
    let n = comp.entities.len();
    let mut i: usize = 0;
    while i < n
        invariant
            n == comp.entities@.len(),
            i <= n,
            p == root_candidate(comp@),
            forall|j: int| 0 <= j < i ==> !p(#[trigger] comp@.entities[j]),
        decreases n - i,
    {
        let e = &comp.entities[i];
        if e.entity_type == EntityType::FleetImage && !inherited(comp, &e.name) {
            proof {
                lemma_first_index(comp@.entities, p, i as int);
            }
            return Some(e);
        }
        i = i + 1;
    }
    proof {
        lemma_first_index(comp@.entities, p, n as int);
    }
    None
}

/// The first entity called `name`.
pub fn by_name<'a>(comp: &'a Composition, name: &str) -> (r: Option<&'a Entity>)
    ensures
        match spec_by_name(comp@, name@) {
            Some(i) => r matches Some(e) && e@ == comp@.entities[i],
            None => r is None,
        },
{
    let ghost p = named(name@);
    let n = comp.entities.len();
    let mut i: usize = 0;
    while i < n
        invariant
            n == comp.entities@.len(),
            i <= n,
            p == named(name@),
            forall|j: int| 0 <= j < i ==> !p(#[trigger] comp@.entities[j]),
        decreases n - i,
    {
        if str_eq(comp.entities[i].name.as_str(), name) {
            proof {
                lemma_first_index(comp@.entities, p, i as int);
            }
            return Some(&comp.entities[i]);
        }
        i = i + 1;
    }
    proof {
        lemma_first_index(comp@.entities, p, n as int);
    }
    None
}

/// The image reference for an entity: its placement layer if it has one,
/// else `<name>:<version>` (version `latest` when it has none); a name that
/// no entity has is its own reference.
pub open spec fn spec_image_ref(c: CompositionView, name: Seq<char>) -> Seq<char> {
    match spec_by_name(c, name) {
        Some(i) => match c.entities[i].placement_layer {
            Some(p) => p,
            None => c.entities[i].name + ":"@ + or_default(c.entities[i].version, "latest"@),
        },
        None => name,
    }
}

/// The image reference for the entity called `name`.
pub fn image_ref(comp: &Composition, name: &str) -> (r: String)
    ensures
        r@ == spec_image_ref(comp@, name@),
{
    match by_name(comp, name) {
        Some(e) => match &e.placement_layer {
            Some(p) => p.clone(),
            None => {
                let mut s = e.name.clone();
                s.append(":");
                match &e.version {
                    Some(v) => s.append(v.as_str()),
                    None => s.append("latest"),
                }
                s
            },
        },
        None => String::from_str(name),
    }
}

pub open spec fn edge_of(subject: Seq<char>, pred: Predicate) -> spec_fn(LinkView) -> bool {
    |l: LinkView| l.predicate == pred && l.subject == subject
}

/// The links of `pred` whose subject is `subject`, sorted by object.
pub open spec fn spec_edges(c: CompositionView, subject: Seq<char>, pred: Predicate) -> Seq<
    LinkView,
> {
    sort_by(c.links.filter(edge_of(subject, pred)), link_object_lt())
}

/// The links of `pred` whose subject is `subject`, sorted by object (stable).
pub fn edges<'a>(comp: &'a Composition, subject: &str, pred: Predicate) -> (r: Vec<&'a Link>)
    ensures
        link_views(r@) == spec_edges(comp@, subject@, pred),
{
    let ghost p = edge_of(subject@, pred);
    let ghost links = comp@.links;
    let mut v: Vec<&'a Link> = Vec::new();
    let n = comp.links.len();
    assert(links.take(0) =~= Seq::<LinkView>::empty());
    proof {
        reveal(Seq::filter);
    }
    for i in 0..n
        invariant
            n == comp.links@.len(),
            links == comp@.links,
            p == edge_of(subject@, pred),
            link_views(v@) == links.take(i as int).filter(p),
    {
        let l = &comp.links[i];
        assert(links.take(i + 1).drop_last() =~= links.take(i as int));
        proof {
            reveal(Seq::filter);
        }
        if l.predicate == pred && str_eq(l.subject.as_str(), subject) {
            v.push(l);
            assert(link_views(v@) =~= link_views(v@).drop_last().push(l@));
        }
    }
    assert(links.take(n as int) =~= links);
    sort_links(v, false)
}


// ---- link metadata ---------------------------------------------------------

/// The text that `key` maps to, if it maps to text.
pub open spec fn spec_meta_str(meta: Map<Seq<char>, MetaValueView>, key: Seq<char>) -> Option<
    Seq<char>,
> {
    if meta.dom().contains(key) {
        match meta[key] {
            MetaValueView::Text(s) => Some(s),
            _ => None,
        }
    } else {
        None
    }
}

pub open spec fn keep_text() -> spec_fn(Option<Seq<char>>) -> Option<Seq<char>> {
    |o: Option<Seq<char>>| o
}

/// The `paths` entry as a list of paths: the text items of a sequence, the
/// text itself, or nothing.
pub open spec fn spec_meta_paths(meta: Map<Seq<char>, MetaValueView>) -> Seq<Seq<char>> {
    if meta.dom().contains("paths"@) {
        match meta["paths"@] {
            MetaValueView::List(items) => items.filter_map(keep_text()),
            MetaValueView::Text(s) => seq![s],
            MetaValueView::Other => seq![],
        }
    } else {
        seq![]
    }
}

pub open spec fn str_opt_view(o: Option<&str>) -> Option<Seq<char>> {
    match o {
        Some(s) => Some(s@),
        None => None,
    }
}

pub open spec fn string_views(v: Seq<String>) -> Seq<Seq<char>> {
    v.map_values(|s: String| s@)
}

/// The text that `key` maps to in a link's metadata.
pub fn meta_str<'a>(meta: &'a LinkMeta, key: &str) -> (r: Option<&'a str>)
    ensures
        str_opt_view(r) == spec_meta_str(meta.rest.view(), key@),
{
    match meta.rest.get(key) {
        Some(MetaValue::Text(s)) => Some(s.as_str()),
        _ => None,
    }
}

/// The paths a link's metadata lists under `paths`.
pub fn meta_paths(meta: &LinkMeta) -> (r: Vec<String>)
    ensures
        string_views(r@) == spec_meta_paths(meta.rest.view()),
{
    match meta.rest.get("paths") {
        Some(MetaValue::List(items)) => {
            let ghost iv = items@.map_values(|o: Option<String>| crate::ontology::opt_view(o));
            let mut r: Vec<String> = Vec::new();
            let n = items.len();
            assert(iv.take(0) =~= Seq::<Option<Seq<char>>>::empty());
            for i in 0..n
                invariant
                    n == items@.len(),
                    iv == items@.map_values(|o: Option<String>| crate::ontology::opt_view(o)),
                    string_views(r@) == iv.take(i as int).filter_map(keep_text()),
            {
                assert(iv.take(i + 1).drop_last() =~= iv.take(i as int));
                match &items[i] {
                    Some(s) => {
                        r.push(s.clone());
                        assert(string_views(r@) =~= string_views(r@).drop_last() + seq![s@]);
                    },
                    None => {},
                }
            }
            assert(iv.take(n as int) =~= iv);
            r
        },
        Some(MetaValue::Text(s)) => {
            let r = vec![s.clone()];
            assert(string_views(r@) =~= seq![s@]);
            r
        },
        _ => {
            let r: Vec<String> = Vec::new();
            assert(string_views(r@) =~= Seq::<Seq<char>>::empty());
            r
        },
    }
}

/// The elements of `list` with `sep` between each two.
pub open spec fn join(list: Seq<Seq<char>>, sep: Seq<char>) -> Seq<char>
    decreases list.len(),
{
    if list.len() == 0 {
        seq![]
    } else if list.len() == 1 {
        list[0]
    } else {
        join(list.drop_last(), sep) + sep + list.last()
    }
}

/// Joins strings with a separator.
pub fn join_strings(list: &Vec<String>, sep: &str) -> (r: String)
    ensures
        r@ == join(string_views(list@), sep@),
{
    let ghost lv = string_views(list@);
    let mut r = String::new();
    let n = list.len();
    assert(lv.take(0) =~= Seq::<Seq<char>>::empty());
    for i in 0..n
        invariant
            n == list@.len(),
            lv == string_views(list@),
            r@ == join(lv.take(i as int), sep@),
    {
        assert(lv.take(i + 1).drop_last() =~= lv.take(i as int));
        if i > 0 {
            r.append(sep);
        } else {
            assert(r@ =~= Seq::<char>::empty());
        }
        r.append(list[i].as_str());
        assert(lv.take(i + 1)[i as int] == list@[i as int]@);
        if i == 0 {
            assert(r@ =~= join(lv.take(1), sep@));
        }
    }
    assert(lv.take(n as int) =~= lv);
    r
}


// ---- the Dockerfile --------------------------------------------------------

/// The two lines a `BUILDS` edge renders to: its kind (default `build`) and
/// package (default: the object) come from the link's metadata.
pub open spec fn spec_build_line(l: LinkView) -> Seq<char> {
    let kind = or_default(spec_meta_str(l.meta, "kind"@), "build"@);
    let pkg = or_default(spec_meta_str(l.meta, "package"@), l.object);
    "# BUILDS "@ + l.object + " ("@ + kind + ")"@ + "\n"@ + "RUN sporaxis-build --"@ + kind + " "@ + pkg
        + "   # → "@ + l.object + "\n"@
}

pub open spec fn spec_build_lines(ls: Seq<LinkView>) -> Seq<char>
    decreases ls.len(),
{
    if ls.len() == 0 {
        seq![]
    } else {
        spec_build_lines(ls.drop_last()) + spec_build_line(ls.last())
    }
}

/// The `COPY` line of a `COPIES_FROM` edge: from the object's image
/// reference, the listed paths (or `/`) to `mount_at` (or `/`).
pub open spec fn spec_copy_line(c: CompositionView, l: LinkView) -> Seq<char> {
    let dest = or_default(spec_meta_str(l.meta, "mount_at"@), "/"@);
    let paths = spec_meta_paths(l.meta);
    let paths_s = if paths.len() == 0 {
        "/"@
    } else {
        join(paths, " "@)
    };
    "COPY --from="@ + spec_image_ref(c, l.object) + " "@ + paths_s + " "@ + dest + "\n"@
}

pub open spec fn spec_copy_lines(c: CompositionView, ls: Seq<LinkView>) -> Seq<char>
    decreases ls.len(),
{
    if ls.len() == 0 {
        seq![]
    } else {
        spec_copy_lines(c, ls.drop_last()) + spec_copy_line(c, ls.last())
    }
}

pub open spec fn spec_longrun_lines(ls: Seq<LinkView>) -> Seq<char>
    decreases ls.len(),
{
    if ls.len() == 0 {
        seq![]
    } else {
        spec_longrun_lines(ls.drop_last()) + "#   longrun: "@ + ls.last().object + "\n"@
    }
}

pub open spec fn spec_docker_head(root: EntityView) -> Seq<char> {
    "# Generated by sporaxis — do not edit; edit the composition and re-compose."@ + "\n"@
        + "# bundle: "@ + root.name + " ("@ + or_default(root.version, "?"@) + ")"@ + "\n"@
        + "\n"@
}

pub open spec fn spec_from_block(c: CompositionView, root: EntityView) -> Seq<char> {
    let inh = spec_edges(c, root.name, Predicate::InheritsFrom);
    if inh.len() > 0 {
        "FROM "@ + spec_image_ref(c, inh[0].object) + "\n"@ + "\n"@
    } else {
        seq![]
    }
}

pub open spec fn spec_builds_block(c: CompositionView, root: EntityView) -> Seq<char> {
    let builds = spec_edges(c, root.name, Predicate::Builds);
    if builds.len() > 0 {
        spec_build_lines(builds) + "\n"@
    } else {
        seq![]
    }
}

pub open spec fn spec_copies_block(c: CompositionView, root: EntityView) -> Seq<char> {
    spec_copy_lines(c, spec_edges(c, root.name, Predicate::CopiesFrom)) + "\n"@
}

pub open spec fn spec_supervision_block(c: CompositionView, root: EntityView) -> Seq<char> {
    let sup = spec_edges(c, root.name, Predicate::Supervises);
    if sup.len() > 0 {
        "\n"@ + "# s6 service tree (SUPERVISES) — see out/s6-services/"@ + "\n"@
            + "COPY s6-services/ /etc/s6-overlay/s6-rc.d/"@ + "\n"@ + spec_longrun_lines(sup)
    } else {
        seq![]
    }
}

/// The multi-stage Dockerfile of the bundle rooted at `root`: a header, the
/// base image (`FROM`), the builds, the copies, the labels (from the root
/// entity alone) and the supervised processes.
pub open spec fn spec_dockerfile(c: CompositionView, root: EntityView) -> Seq<char> {
    spec_docker_head(root) + spec_from_block(c, root) + spec_builds_block(c, root)
        + spec_copies_block(c, root) + spec_labels(root) + spec_supervision_block(c, root)
}

/// The label block: the title and version of the fleet image itself.
pub open spec fn spec_labels(root: EntityView) -> Seq<char> {
    "# I7 — labels derive only from the oci:FleetImage entity"@ + "\n"@
        + "LABEL org.opencontainers.image.title="@ + root.name + "\n"@
        + "LABEL org.opencontainers.image.version="@ + or_default(root.version, "0"@) + "\n"@
}

fn opt_or<'a>(o: &'a Option<String>, d: &'a str) -> (r: &'a str)
    ensures
        r@ == or_default(crate::ontology::opt_view(*o), d@),
{
    match o {
        Some(s) => s.as_str(),
        None => d,
    }
}

fn str_or<'a>(o: Option<&'a str>, d: &'a str) -> (r: &'a str)
    ensures
        r@ == or_default(str_opt_view(o), d@),
{
    match o {
        Some(s) => s,
        None => d,
    }
}

fn build_line(l: &Link) -> (r: String)
    ensures
        r@ == spec_build_line(l@),
{
    let kind = str_or(meta_str(&l.meta, "kind"), "build");
    let pkg = str_or(meta_str(&l.meta, "package"), l.object.as_str());
    let mut o = String::new();
    o.append("# BUILDS ");
    o.append(l.object.as_str());
    o.append(" (");
    o.append(kind);
    o.append(")");
    o.append("\n");
    let ghost first = o@;
    o.append("RUN sporaxis-build --");
    o.append(kind);
    o.append(" ");
    o.append(pkg);
    o.append("   # → ");
    o.append(l.object.as_str());
    o.append("\n");
    assert(o@ =~= spec_build_line(l@));
    o
}

fn push_build_lines(o: &mut String, ls: &Vec<&Link>)
    ensures
        final(o)@ == old(o)@ + spec_build_lines(link_views(ls@)),
{
    let ghost o0 = o@;
    let ghost lv = link_views(ls@);
    let n = ls.len();
    assert(lv.take(0) =~= Seq::<LinkView>::empty());
    assert(o@ =~= o0 + spec_build_lines(lv.take(0)));
    for i in 0..n
        invariant
            n == ls@.len(),
            lv == link_views(ls@),
            o@ == o0 + spec_build_lines(lv.take(i as int)),
    {
        let l = ls[i];
        let ghost before = o@;
        let line = build_line(l);
        o.append(line.as_str());
        assert(lv.take(i + 1).drop_last() =~= lv.take(i as int));
        assert(lv.take(i + 1).last() == l@);
        assert(o@ =~= before + spec_build_line(l@));
    }
    assert(lv.take(n as int) =~= lv);
}

fn copy_line(comp: &Composition, l: &Link) -> (r: String)
    ensures
        r@ == spec_copy_line(comp@, l@),
{
    let dest = str_or(meta_str(&l.meta, "mount_at"), "/");
    let paths = meta_paths(&l.meta);
    let paths_s = if paths.len() == 0 {
        String::from_str("/")
    } else {
        join_strings(&paths, " ")
    };
    let from = image_ref(comp, l.object.as_str());
    let mut o = String::from_str("COPY --from=");
    o.append(from.as_str());
    o.append(" ");
    o.append(paths_s.as_str());
    o.append(" ");
    o.append(dest);
    o.append("\n");
    assert(o@ =~= spec_copy_line(comp@, l@));
    o
}

fn push_copy_lines(o: &mut String, comp: &Composition, ls: &Vec<&Link>)
    ensures
        final(o)@ == old(o)@ + spec_copy_lines(comp@, link_views(ls@)),
{
    let ghost o0 = o@;
    let ghost lv = link_views(ls@);
    let n = ls.len();
    assert(lv.take(0) =~= Seq::<LinkView>::empty());
    assert(o@ =~= o0 + spec_copy_lines(comp@, lv.take(0)));
    for i in 0..n
        invariant
            n == ls@.len(),
            lv == link_views(ls@),
            o@ == o0 + spec_copy_lines(comp@, lv.take(i as int)),
    {
        let l = ls[i];
        let ghost before = o@;
        let line = copy_line(comp, l);
        o.append(line.as_str());
        assert(lv.take(i + 1).drop_last() =~= lv.take(i as int));
        assert(lv.take(i + 1).last() == l@);
        assert(o@ =~= before + spec_copy_line(comp@, l@));
    }
    assert(lv.take(n as int) =~= lv);
}

fn push_longrun_lines(o: &mut String, ls: &Vec<&Link>)
    ensures
        final(o)@ == old(o)@ + spec_longrun_lines(link_views(ls@)),
{
    let ghost o0 = o@;
    let ghost lv = link_views(ls@);
    let n = ls.len();
    assert(lv.take(0) =~= Seq::<LinkView>::empty());
    assert(o@ =~= o0 + spec_longrun_lines(lv.take(0)));
    for i in 0..n
        invariant
            n == ls@.len(),
            lv == link_views(ls@),
            o@ == o0 + spec_longrun_lines(lv.take(i as int)),
    {
        let l = ls[i];
        let ghost before = o@;
        o.append("#   longrun: ");
        o.append(l.object.as_str());
        o.append("\n");
        assert(lv.take(i + 1).drop_last() =~= lv.take(i as int));
        assert(lv.take(i + 1).last() == l@);
        assert(o@ =~= before + "#   longrun: "@ + l@.object + "\n"@);
    }
    assert(lv.take(n as int) =~= lv);
}

fn push_from_block(o: &mut String, comp: &Composition, root: &Entity)
    ensures
        final(o)@ == old(o)@ + spec_from_block(comp@, root@),
{
    let inh = edges(comp, root.name.as_str(), Predicate::InheritsFrom);
    if inh.len() > 0 {
        let base = image_ref(comp, inh[0].object.as_str());
        o.append("FROM ");
        o.append(base.as_str());
        o.append("\n");
        o.append("\n");
        assert(final(o)@ =~= old(o)@ + spec_from_block(comp@, root@));
    } else {
        assert(o@ =~= old(o)@ + spec_from_block(comp@, root@));
    }
}

fn push_builds_block(o: &mut String, comp: &Composition, root: &Entity)
    ensures
        final(o)@ == old(o)@ + spec_builds_block(comp@, root@),
{
    let builds = edges(comp, root.name.as_str(), Predicate::Builds);
    if builds.len() > 0 {
        push_build_lines(o, &builds);
        o.append("\n");
        assert(final(o)@ =~= old(o)@ + spec_builds_block(comp@, root@));
    } else {
        assert(o@ =~= old(o)@ + spec_builds_block(comp@, root@));
    }
}

fn push_copies_block(o: &mut String, comp: &Composition, root: &Entity)
    ensures
        final(o)@ == old(o)@ + spec_copies_block(comp@, root@),
{
    let copies = edges(comp, root.name.as_str(), Predicate::CopiesFrom);
    push_copy_lines(o, comp, &copies);
    o.append("\n");
    assert(final(o)@ =~= old(o)@ + spec_copies_block(comp@, root@));
}

fn push_labels(o: &mut String, root: &Entity)
    ensures
        final(o)@ == old(o)@ + spec_labels(root@),
{
    o.append("# I7 — labels derive only from the oci:FleetImage entity");
    o.append("\n");
    o.append("LABEL org.opencontainers.image.title=");
    o.append(root.name.as_str());
    o.append("\n");
    o.append("LABEL org.opencontainers.image.version=");
    o.append(opt_or(&root.version, "0"));
    o.append("\n");
    assert(final(o)@ =~= old(o)@ + spec_labels(root@));
}

fn push_supervision_block(o: &mut String, comp: &Composition, root: &Entity)
    ensures
        final(o)@ == old(o)@ + spec_supervision_block(comp@, root@),
{
    let sup = edges(comp, root.name.as_str(), Predicate::Supervises);
    if sup.len() > 0 {
        o.append("\n");
        o.append("# s6 service tree (SUPERVISES) — see out/s6-services/");
        o.append("\n");
        o.append("COPY s6-services/ /etc/s6-overlay/s6-rc.d/");
        o.append("\n");
        push_longrun_lines(o, &sup);
        assert(final(o)@ =~= old(o)@ + spec_supervision_block(comp@, root@));
    } else {
        assert(o@ =~= old(o)@ + spec_supervision_block(comp@, root@));
    }
}

/// Renders the multi-stage Dockerfile of the bundle rooted at `root`.
pub fn render_dockerfile(comp: &Composition, root: &Entity) -> (r: Result<String, ComposeError>)
    ensures
        r matches Ok(s) && s@ == spec_dockerfile(comp@, root@),
{
    let mut o = String::new();
    o.append("# Generated by sporaxis — do not edit; edit the composition and re-compose.");
    o.append("\n");
    o.append("# bundle: ");
    o.append(root.name.as_str());
    o.append(" (");
    o.append(opt_or(&root.version, "?"));
    o.append(")");
    o.append("\n");
    o.append("\n");
    assert(o@ =~= spec_docker_head(root@));
    push_from_block(&mut o, comp, root);
    push_builds_block(&mut o, comp, root);
    push_copies_block(&mut o, comp, root);
    push_labels(&mut o, root);
    push_supervision_block(&mut o, comp, root);
    Ok(o)
}

// ---- the s6 service tree ---------------------------------------------------

/// The two files of a supervised process: its `type` (`longrun`) and its
/// `run` script, whose command is the link's `run` (default: the process).
pub open spec fn spec_s6_pair(l: LinkView) -> Seq<(Seq<char>, Seq<char>)> {
    let svc = l.object;
    let run = or_default(spec_meta_str(l.meta, "run"@), svc);
    seq![
        ("s6-services/"@ + svc + "/type"@, "longrun\n"@),
        ("s6-services/"@ + svc + "/run"@, "#!/command/execlineb -P\n"@ + run + "\n"@),
    ]
}

pub open spec fn spec_s6_files(ls: Seq<LinkView>) -> Seq<(Seq<char>, Seq<char>)>
    decreases ls.len(),
{
    if ls.len() == 0 {
        seq![]
    } else {
        spec_s6_files(ls.drop_last()) + spec_s6_pair(ls.last())
    }
}

pub open spec fn file_views(v: Seq<(String, String)>) -> Seq<(Seq<char>, Seq<char>)> {
    v.map_values(|f: (String, String)| (f.0@, f.1@))
}

/// The s6 service tree: a `type` and a `run` file, under
/// `s6-services/<process>/`, for each process the root supervises.
pub fn render_s6(comp: &Composition, root: &Entity) -> (r: Vec<(String, String)>)
    ensures
        file_views(r@) == spec_s6_files(spec_edges(comp@, root@.name, Predicate::Supervises)),
{
    let sup = edges(comp, root.name.as_str(), Predicate::Supervises);
    let ghost lv = link_views(sup@);
    let mut files: Vec<(String, String)> = Vec::new();
    let n = sup.len();
    assert(lv.take(0) =~= Seq::<LinkView>::empty());
    assert(file_views(files@) =~= spec_s6_files(lv.take(0)));
    for i in 0..n
        invariant
            n == sup@.len(),
            lv == link_views(sup@),
            file_views(files@) == spec_s6_files(lv.take(i as int)),
    {
        let l = sup[i];
        let svc = l.object.as_str();
        let run = str_or(meta_str(&l.meta, "run"), svc);
        let mut type_path = String::from_str("s6-services/");
        type_path.append(svc);
        type_path.append("/type");
        let mut run_path = String::from_str("s6-services/");
        run_path.append(svc);
        run_path.append("/run");
        let mut script = String::from_str("#!/command/execlineb -P\n");
        script.append(run);
        script.append("\n");
        let ghost before = file_views(files@);
        files.push((type_path, String::from_str("longrun\n")));
        files.push((run_path, script));
        assert(lv.take(i + 1).drop_last() =~= lv.take(i as int));
        assert(lv.take(i + 1).last() == l@);
        assert(file_views(files@) =~= before + spec_s6_pair(l@));
    }
    assert(lv.take(n as int) =~= lv);
    files
}

// ---- the smoke script ------------------------------------------------------

pub open spec fn has_predicate(pred: Predicate) -> spec_fn(LinkView) -> bool {
    |l: LinkView| l.predicate == pred
}

/// The `SMOKES_BY` edges, sorted by subject and then object.
pub open spec fn spec_smokes(c: CompositionView) -> Seq<LinkView> {
    sort_by(c.links.filter(has_predicate(Predicate::SmokesBy)), link_subject_object_lt())
}

pub open spec fn spec_smoke_line(l: LinkView) -> Seq<char> {
    "# "@ + l.subject + " SMOKES_BY "@ + l.object + "\n"@ + "echo 'smoke: "@ + l.subject + " / "@
        + l.object + "'\n"@
}

pub open spec fn spec_smoke_lines(ls: Seq<LinkView>) -> Seq<char>
    decreases ls.len(),
{
    if ls.len() == 0 {
        seq![]
    } else {
        spec_smoke_lines(ls.drop_last()) + spec_smoke_line(ls.last())
    }
}

/// The smoke script: a comment and an `echo` for each `SMOKES_BY` edge.
pub open spec fn spec_smoke(c: CompositionView) -> Seq<char> {
    "#!/bin/sh\n"@ + "# Generated by sporaxis — smoke assertions from SMOKES_BY edges.\n"@
        + "set -eu\n\n"@ + spec_smoke_lines(spec_smokes(c))
}

/// The links of predicate `pred`, in their order.
fn links_with<'a>(comp: &'a Composition, pred: Predicate) -> (r: Vec<&'a Link>)
    ensures
        link_views(r@) == comp@.links.filter(has_predicate(pred)),
{
    let ghost p = has_predicate(pred);
    let ghost links = comp@.links;
    let mut v: Vec<&'a Link> = Vec::new();
    let n = comp.links.len();
    assert(links.take(0) =~= Seq::<LinkView>::empty());
    proof {
        reveal(Seq::filter);
    }
    for i in 0..n
        invariant
            n == comp.links@.len(),
            links == comp@.links,
            p == has_predicate(pred),
            link_views(v@) == links.take(i as int).filter(p),
    {
        let l = &comp.links[i];
        assert(links.take(i + 1).drop_last() =~= links.take(i as int));
        proof {
            reveal(Seq::filter);
        }
        if l.predicate == pred {
            v.push(l);
            assert(link_views(v@) =~= link_views(v@).drop_last().push(l@));
        }
    }
    assert(links.take(n as int) =~= links);
    v
}

fn smoke_line(l: &Link) -> (r: String)
    ensures
        r@ == spec_smoke_line(l@),
{
    let mut o = String::from_str("# ");
    o.append(l.subject.as_str());
    o.append(" SMOKES_BY ");
    o.append(l.object.as_str());
    o.append("\n");
    o.append("echo 'smoke: ");
    o.append(l.subject.as_str());
    o.append(" / ");
    o.append(l.object.as_str());
    o.append("'\n");
    assert(o@ =~= spec_smoke_line(l@));
    o
}

/// Renders the smoke script.
pub fn render_smoke(comp: &Composition) -> (r: Result<String, ComposeError>)
    ensures
        r matches Ok(s) && s@ == spec_smoke(comp@),
{
    let mut o = String::new();
    o.append("#!/bin/sh\n");
    o.append("# Generated by sporaxis — smoke assertions from SMOKES_BY edges.\n");
    o.append("set -eu\n\n");
    let ghost o0 = o@;
    let smokes = sort_links(links_with(comp, Predicate::SmokesBy), true);
    let ghost lv = link_views(smokes@);
    assert(lv == spec_smokes(comp@));
    let n = smokes.len();
    assert(lv.take(0) =~= Seq::<LinkView>::empty());
    assert(o@ =~= o0 + spec_smoke_lines(lv.take(0)));
    for i in 0..n
        invariant
            n == smokes@.len(),
            lv == link_views(smokes@),
            o@ == o0 + spec_smoke_lines(lv.take(i as int)),
    {
        let line = smoke_line(smokes[i]);
        o.append(line.as_str());
        assert(lv.take(i + 1).drop_last() =~= lv.take(i as int));
        assert(lv.take(i + 1).last() == smokes@[i as int]@);
    }
    assert(lv.take(n as int) =~= lv);
    Ok(o)
}


// ---- bundle.yaml and the manifest plan --------------------------------------

pub open spec fn of_type(kind: EntityType) -> spec_fn(EntityView) -> bool {
    |e: EntityView| e.entity_type == kind
}

pub open spec fn is_placed() -> spec_fn(EntityView) -> bool {
    |e: EntityView| e.placement_layer is Some
}

/// The entities of type `kind`, sorted by name.
pub open spec fn spec_entities_of(c: CompositionView, kind: EntityType) -> Seq<EntityView> {
    sort_by(c.entities.filter(of_type(kind)), entity_name_lt())
}

/// The `base:` line: the image reference of what the root inherits from.
pub open spec fn spec_base_line(c: CompositionView, root: EntityView) -> Seq<char> {
    let inh = spec_edges(c, root.name, Predicate::InheritsFrom);
    if inh.len() > 0 {
        "base: "@ + spec_image_ref(c, inh[0].object) + "\n"@
    } else {
        seq![]
    }
}

pub open spec fn spec_section_entry(e: EntityView) -> Seq<char> {
    "  "@ + e.name + ":\n    version: "@ + or_default(e.version, "?"@) + "\n"@
        + match e.placement_layer {
        Some(p) => "    placement_layer: "@ + p + "\n"@,
        None => seq![],
    }
}

pub open spec fn spec_section_entries(es: Seq<EntityView>) -> Seq<char>
    decreases es.len(),
{
    if es.len() == 0 {
        seq![]
    } else {
        spec_section_entries(es.drop_last()) + spec_section_entry(es.last())
    }
}

/// A section of `bundle.yaml`: the header, then each entity of the type
/// with its version and placement layer; nothing when there is none.
pub open spec fn spec_section(c: CompositionView, header: Seq<char>, kind: EntityType) -> Seq<
    char,
> {
    let es = spec_entities_of(c, kind);
    if es.len() == 0 {
        seq![]
    } else {
        header + spec_section_entries(es)
    }
}

pub open spec fn spec_process_entries(es: Seq<EntityView>) -> Seq<char>
    decreases es.len(),
{
    if es.len() == 0 {
        seq![]
    } else {
        spec_process_entries(es.drop_last()) + "  - "@ + es.last().name + "\n"@
    }
}

pub open spec fn spec_processes(c: CompositionView) -> Seq<char> {
    let es = spec_entities_of(c, EntityType::Process);
    if es.len() == 0 {
        seq![]
    } else {
        "processes:\n"@ + spec_process_entries(es)
    }
}

pub open spec fn spec_bundle_head(root: EntityView) -> Seq<char> {
    "# Generated by sporaxis — the layer bill of materials.\n"@ + "name: "@ + root.name + "\n"@
        + "version: "@ + or_default(root.version, "?"@) + "\n"@
}

/// `bundle.yaml`, the layer bill of materials: name, version, base, then the
/// extensions, the components and the processes.
pub open spec fn spec_bundle_yaml(c: CompositionView, root: EntityView) -> Seq<char> {
    spec_bundle_head(root) + spec_base_line(c, root) + spec_section(
        c,
        "extensions:\n"@,
        EntityType::DbExtension,
    ) + spec_section(c, "components:\n"@, EntityType::StaticArtifact) + spec_processes(c)
}

/// The entities that satisfy `placed` (when true) or are of type `kind`
/// (when false), in their order.
fn entities_where<'a>(comp: &'a Composition, placed: bool, kind: EntityType) -> (r: Vec<
    &'a Entity,
>)
    ensures
        entity_views(r@) == comp@.entities.filter(
            if placed {
                is_placed()
            } else {
                of_type(kind)
            },
        ),
{
    let ghost p = if placed {
        is_placed()
    } else {
        of_type(kind)
    };
    let ghost es = comp@.entities;
    let mut v: Vec<&'a Entity> = Vec::new();
    let n = comp.entities.len();
    assert(es.take(0) =~= Seq::<EntityView>::empty());
    proof {
        reveal(Seq::filter);
    }
    for i in 0..n
        invariant
            n == comp.entities@.len(),
            es == comp@.entities,
            p == (if placed {
                is_placed()
            } else {
                of_type(kind)
            }),
            entity_views(v@) == es.take(i as int).filter(p),
    {
        let e = &comp.entities[i];
        assert(es.take(i + 1).drop_last() =~= es.take(i as int));
        proof {
            reveal(Seq::filter);
        }
        let keep = if placed {
            e.placement_layer.is_some()
        } else {
            e.entity_type == kind
        };
        if keep {
            v.push(e);
            assert(entity_views(v@) =~= entity_views(v@).drop_last().push(e@));
        }
    }
    assert(es.take(n as int) =~= es);
    v
}

fn push_base_line(o: &mut String, comp: &Composition, root: &Entity)
    ensures
        final(o)@ == old(o)@ + spec_base_line(comp@, root@),
{
    let inh = edges(comp, root.name.as_str(), Predicate::InheritsFrom);
    if inh.len() > 0 {
        let base = image_ref(comp, inh[0].object.as_str());
        o.append("base: ");
        o.append(base.as_str());
        o.append("\n");
        assert(final(o)@ =~= old(o)@ + spec_base_line(comp@, root@));
    } else {
        assert(o@ =~= old(o)@ + spec_base_line(comp@, root@));
    }
}

fn section_entry(e: &Entity) -> (r: String)
    ensures
        r@ == spec_section_entry(e@),
{
    let mut o = String::from_str("  ");
    o.append(e.name.as_str());
    o.append(":\n    version: ");
    o.append(opt_or(&e.version, "?"));
    o.append("\n");
    match &e.placement_layer {
        Some(p) => {
            o.append("    placement_layer: ");
            o.append(p.as_str());
            o.append("\n");
        },
        None => {},
    }
    assert(o@ =~= spec_section_entry(e@));
    o
}

fn push_section(o: &mut String, comp: &Composition, header: &str, kind: EntityType)
    ensures
        final(o)@ == old(o)@ + spec_section(comp@, header@, kind),
{
    let es = sort_entities(entities_where(comp, false, kind));
    let ghost ev = entity_views(es@);
    assert(ev == spec_entities_of(comp@, kind));
    if es.len() == 0 {
        assert(o@ =~= old(o)@ + spec_section(comp@, header@, kind));
        return;
    }
    o.append(header);
    let ghost o0 = o@;
    let n = es.len();
    assert(ev.take(0) =~= Seq::<EntityView>::empty());
    assert(o@ =~= o0 + spec_section_entries(ev.take(0)));
    for i in 0..n
        invariant
            n == es@.len(),
            ev == entity_views(es@),
            o@ == o0 + spec_section_entries(ev.take(i as int)),
    {
        let entry = section_entry(es[i]);
        o.append(entry.as_str());
        assert(ev.take(i + 1).drop_last() =~= ev.take(i as int));
        assert(ev.take(i + 1).last() == es@[i as int]@);
    }
    assert(ev.take(n as int) =~= ev);
    assert(o@ =~= old(o)@ + spec_section(comp@, header@, kind));
}

fn push_processes(o: &mut String, comp: &Composition)
    ensures
        final(o)@ == old(o)@ + spec_processes(comp@),
{
    let es = sort_entities(entities_where(comp, false, EntityType::Process));
    let ghost ev = entity_views(es@);
    assert(ev == spec_entities_of(comp@, EntityType::Process));
    if es.len() == 0 {
        assert(o@ =~= old(o)@ + spec_processes(comp@));
        return;
    }
    o.append("processes:\n");
    let ghost o0 = o@;
    let n = es.len();
    assert(ev.take(0) =~= Seq::<EntityView>::empty());
    assert(o@ =~= o0 + spec_process_entries(ev.take(0)));
    for i in 0..n
        invariant
            n == es@.len(),
            ev == entity_views(es@),
            o@ == o0 + spec_process_entries(ev.take(i as int)),
    {
        let ghost before = o@;
        o.append("  - ");
        o.append(es[i].name.as_str());
        o.append("\n");
        assert(ev.take(i + 1).drop_last() =~= ev.take(i as int));
        assert(ev.take(i + 1).last() == es@[i as int]@);
        assert(o@ =~= before + "  - "@ + es@[i as int]@.name + "\n"@);
    }
    assert(ev.take(n as int) =~= ev);
    assert(o@ =~= old(o)@ + spec_processes(comp@));
}

/// Renders `bundle.yaml` for the bundle rooted at `root`.
pub fn render_bundle_yaml(comp: &Composition, root: &Entity) -> (r: Result<String, ComposeError>)
    ensures
        r matches Ok(s) && s@ == spec_bundle_yaml(comp@, root@),
{
    let mut o = String::new();
    o.append("# Generated by sporaxis — the layer bill of materials.\n");
    o.append("name: ");
    o.append(root.name.as_str());
    o.append("\n");
    o.append("version: ");
    o.append(opt_or(&root.version, "?"));
    o.append("\n");
    assert(o@ =~= spec_bundle_head(root@));
    push_base_line(&mut o, comp, root);
    push_section(&mut o, comp, "extensions:\n", EntityType::DbExtension);
    push_section(&mut o, comp, "components:\n", EntityType::StaticArtifact);
    push_processes(&mut o, comp);
    Ok(o)
}

pub open spec fn spec_layer_entries(es: Seq<EntityView>) -> Seq<char>
    decreases es.len(),
{
    if es.len() == 0 {
        seq![]
    } else {
        spec_layer_entries(es.drop_last()) + "  - "@ + es.last().name + " -> "@
            + or_default(es.last().placement_layer, seq![]) + "\n"@
    }
}

/// The entities that carry a placement layer, sorted by name.
pub open spec fn spec_placed(c: CompositionView) -> Seq<EntityView> {
    sort_by(c.entities.filter(is_placed()), entity_name_lt())
}

pub open spec fn spec_plan_head(root: EntityView) -> Seq<char> {
    "# Generated by sporaxis — manifest-mode layer plan (by-digest, no build).\n"@ + "# image: "@
        + root.name + " ("@ + or_default(root.version, "?"@) + ")\n"@
}

/// The manifest-mode layer plan: the base image, then one by-digest layer
/// per entity that carries a placement layer.
pub open spec fn spec_manifest_plan(c: CompositionView, root: EntityView) -> Seq<char> {
    spec_plan_head(root) + spec_base_line(c, root) + "layers:\n"@ + spec_layer_entries(
        spec_placed(c),
    )
}

/// Renders the manifest-mode layer plan for the bundle rooted at `root`.
pub fn render_manifest_plan(comp: &Composition, root: &Entity) -> (r: Result<
    String,
    ComposeError,
>)
    ensures
        r matches Ok(s) && s@ == spec_manifest_plan(comp@, root@),
{
    let mut o = String::new();
    o.append("# Generated by sporaxis — manifest-mode layer plan (by-digest, no build).\n");
    o.append("# image: ");
    o.append(root.name.as_str());
    o.append(" (");
    o.append(opt_or(&root.version, "?"));
    o.append(")\n");
    assert(o@ =~= spec_plan_head(root@));
    push_base_line(&mut o, comp, root);
    o.append("layers:\n");
    let ghost o0 = o@;
    let placed = sort_entities(entities_where(comp, true, EntityType::FleetImage));
    let ghost ev = entity_views(placed@);
    assert(ev == spec_placed(comp@));
    let n = placed.len();
    assert(ev.take(0) =~= Seq::<EntityView>::empty());
    assert(o@ =~= o0 + spec_layer_entries(ev.take(0)));
    for i in 0..n
        invariant
            n == placed@.len(),
            ev == entity_views(placed@),
            o@ == o0 + spec_layer_entries(ev.take(i as int)),
    {
        let e = placed[i];
        let ghost before = o@;
        o.append("  - ");
        o.append(e.name.as_str());
        o.append(" -> ");
        match &e.placement_layer {
            Some(p) => o.append(p.as_str()),
            None => {},
        }
        o.append("\n");
        assert(ev.take(i + 1).drop_last() =~= ev.take(i as int));
        assert(ev.take(i + 1).last() == e@);
        assert(o@ =~= before + "  - "@ + e@.name + " -> "@ + or_default(e@.placement_layer, seq![])
            + "\n"@);
    }
    assert(ev.take(n as int) =~= ev);
    Ok(o)
}


// ---- laws --------------------------------------------------------------------

/// The edges of a subject and predicate are exactly the matching links, each
/// as often as it occurs, and they come sorted by object.
pub proof fn lemma_edges_sorted(c: CompositionView, subject: Seq<char>, pred: Predicate)
    ensures
        spec_edges(c, subject, pred).to_multiset() =~= c.links.filter(
            edge_of(subject, pred),
        ).to_multiset(),
        forall|i: int, j: int|
            0 <= i < j < spec_edges(c, subject, pred).len() ==> !seq_lt(
                #[trigger] spec_edges(c, subject, pred)[j].object,
                #[trigger] spec_edges(c, subject, pred)[i].object,
            ),
{
    lemma_link_object_order();
    lemma_sort_by(c.links.filter(edge_of(subject, pred)), link_object_lt());
    let e = spec_edges(c, subject, pred);
    assert forall|i: int, j: int| 0 <= i < j < e.len() implies !seq_lt(
        #[trigger] e[j].object,
        #[trigger] e[i].object,
    ) by {
        assert(!(link_object_lt())(e[j], e[i]));
    }
}

/// The root of a bundle is an `oci:FleetImage` that no link inherits, and
/// none comes before it; without a root, every fleet image is inherited.
pub proof fn lemma_root_fleet(c: CompositionView)
    ensures
        spec_root_fleet(c) matches Some(i) ==> {
            &&& 0 <= i < c.entities.len()
            &&& c.entities[i].entity_type == EntityType::FleetImage
            &&& !is_inherited(c, c.entities[i].name)
            &&& forall|j: int|
                0 <= j < i && (#[trigger] c.entities[j]).entity_type == EntityType::FleetImage
                    ==> is_inherited(c, c.entities[j].name)
        },
        spec_root_fleet(c) is None ==> forall|j: int|
            0 <= j < c.entities.len() && (#[trigger] c.entities[j]).entity_type
                == EntityType::FleetImage ==> is_inherited(c, c.entities[j].name),
{
    let p = root_candidate(c);
    lemma_first_index_found(c.entities, p);
    assert forall|j: int| 0 <= j < c.entities.len() && !p(#[trigger] c.entities[j]) && c.entities[j].entity_type
        == EntityType::FleetImage implies is_inherited(c, c.entities[j].name) by {}
}

/// The s6 tree holds two files per supervised process, in the order of the
/// processes: its `type`, which is `longrun`, and its `run` script.
pub proof fn lemma_s6_pairs(ls: Seq<LinkView>)
    ensures
        spec_s6_files(ls).len() == 2 * ls.len(),
        forall|i: int|
            0 <= i < ls.len() ==> {
                &&& spec_s6_files(ls)[2 * i] == ("s6-services/"@ + (#[trigger] ls[i]).object
                    + "/type"@, "longrun\n"@)
                &&& spec_s6_files(ls)[2 * i + 1].0 == "s6-services/"@ + ls[i].object + "/run"@
            },
    decreases ls.len(),
{
    if ls.len() > 0 {
        let prev = ls.drop_last();
        lemma_s6_pairs(prev);
        assert forall|i: int| 0 <= i < ls.len() implies {
            &&& spec_s6_files(ls)[2 * i] == ("s6-services/"@ + (#[trigger] ls[i]).object
                + "/type"@, "longrun\n"@)
            &&& spec_s6_files(ls)[2 * i + 1].0 == "s6-services/"@ + ls[i].object + "/run"@
        } by {
            if i < ls.len() - 1 {
                assert(ls[i] == prev[i]);
            }
        }
    }
}

pub open spec fn subject_is(subject: Seq<char>) -> spec_fn(LinkView) -> bool {
    |l: LinkView| l.subject == subject
}

/// The edges of a subject are its links, filtered by predicate.
proof fn lemma_edge_filter(s: Seq<LinkView>, subject: Seq<char>, pred: Predicate)
    ensures
        s.filter(edge_of(subject, pred)) == s.filter(subject_is(subject)).filter(
            has_predicate(pred),
        ),
    decreases s.len(),
{
    reveal(Seq::filter);
    if s.len() > 0 {
        lemma_edge_filter(s.drop_last(), subject, pred);
        let t = s.drop_last().filter(subject_is(subject));
        if (subject_is(subject))(s.last()) {
            assert(s.filter(subject_is(subject)) == t.push(s.last()));
            assert(t.push(s.last()).drop_last() =~= t);
        } else {
            assert(s.filter(subject_is(subject)) == t);
        }
    }
}

proof fn lemma_copy_lines_same_entities(c1: CompositionView, c2: CompositionView, ls: Seq<LinkView>)
    requires
        c1.entities == c2.entities,
    ensures
        spec_copy_lines(c1, ls) == spec_copy_lines(c2, ls),
    decreases ls.len(),
{
    if ls.len() > 0 {
        lemma_copy_lines_same_entities(c1, c2, ls.drop_last());
    }
}

/// Only the root's own links shape its Dockerfile: two graphs with the same
/// entities whose links from the root are the same, in the same order, give
/// the same Dockerfile, whatever other links they hold.
pub proof fn lemma_other_links_leave_dockerfile(
    c1: CompositionView,
    c2: CompositionView,
    root: EntityView,
)
    requires
        c1.entities == c2.entities,
        c1.links.filter(subject_is(root.name)) == c2.links.filter(subject_is(root.name)),
    ensures
        spec_dockerfile(c1, root) == spec_dockerfile(c2, root),
{
    lemma_edge_filter(c1.links, root.name, Predicate::InheritsFrom);
    lemma_edge_filter(c2.links, root.name, Predicate::InheritsFrom);
    lemma_edge_filter(c1.links, root.name, Predicate::Builds);
    lemma_edge_filter(c2.links, root.name, Predicate::Builds);
    lemma_edge_filter(c1.links, root.name, Predicate::CopiesFrom);
    lemma_edge_filter(c2.links, root.name, Predicate::CopiesFrom);
    lemma_edge_filter(c1.links, root.name, Predicate::Supervises);
    lemma_edge_filter(c2.links, root.name, Predicate::Supervises);
    let copies = spec_edges(c1, root.name, Predicate::CopiesFrom);
    assert(copies == spec_edges(c2, root.name, Predicate::CopiesFrom));
    lemma_copy_lines_same_entities(c1, c2, copies);
    assert(spec_from_block(c1, root) == spec_from_block(c2, root));
    assert(spec_builds_block(c1, root) == spec_builds_block(c2, root));
    assert(spec_copies_block(c1, root) == spec_copies_block(c2, root));
    assert(spec_supervision_block(c1, root) == spec_supervision_block(c2, root));
}


// ---- laws on the order of the graph -------------------------------------------

pub open spec fn seq_order() -> spec_fn(Seq<char>, Seq<char>) -> bool {
    |a: Seq<char>, b: Seq<char>| seq_lt(a, b)
}

pub open spec fn pair_order() -> spec_fn((Seq<char>, Seq<char>), (Seq<char>, Seq<char>)) -> bool {
    |a: (Seq<char>, Seq<char>), b: (Seq<char>, Seq<char>)|
        seq_lt(a.0, b.0) || (a.0 == b.0 && seq_lt(a.1, b.1))
}

pub open spec fn object_key() -> spec_fn(LinkView) -> Seq<char> {
    |l: LinkView| l.object
}

pub open spec fn subject_object_key() -> spec_fn(LinkView) -> (Seq<char>, Seq<char>) {
    |l: LinkView| (l.subject, l.object)
}

pub open spec fn name_key() -> spec_fn(EntityView) -> Seq<char> {
    |e: EntityView| e.name
}

/// No two entities share a name.
pub open spec fn names_distinct(es: Seq<EntityView>) -> bool {
    forall|i: int, j: int|
        0 <= i < es.len() && 0 <= j < es.len() && i != j ==> (#[trigger] es[i]).name
            != (#[trigger] es[j]).name
}

proof fn lemma_seq_order_total()
    ensures
        total_order(seq_order()),
{
    assert forall|a: Seq<char>| !#[trigger] (seq_order())(a, a) by {
        lemma_seq_lt_irreflexive(a);
    }
    assert forall|a: Seq<char>, b: Seq<char>, c: Seq<char>|
        #[trigger] (seq_order())(a, b) && #[trigger] (seq_order())(b, c) implies (seq_order())(
        a,
        c,
    ) by {
        lemma_seq_lt_transitive(a, b, c);
    }
    assert forall|a: Seq<char>, b: Seq<char>| a != b implies #[trigger] (seq_order())(a, b) || (
    seq_order())(b, a) by {
        lemma_seq_lt_total(a, b);
    }
}

proof fn lemma_pair_order_total()
    ensures
        total_order(pair_order()),
{
    let lt = pair_order();
    assert forall|a: (Seq<char>, Seq<char>)| !#[trigger] lt(a, a) by {
        lemma_seq_lt_irreflexive(a.0);
        lemma_seq_lt_irreflexive(a.1);
    }
    assert forall|a: (Seq<char>, Seq<char>), b: (Seq<char>, Seq<char>), c: (Seq<char>, Seq<char>)|
        #[trigger] lt(a, b) && #[trigger] lt(b, c) implies lt(a, c) by {
        lemma_seq_lt_irreflexive(a.0);
        lemma_seq_lt_irreflexive(b.0);
        if seq_lt(a.0, b.0) && seq_lt(b.0, c.0) {
            lemma_seq_lt_transitive(a.0, b.0, c.0);
        }
        if a.0 == b.0 && b.0 == c.0 {
            lemma_seq_lt_transitive(a.1, b.1, c.1);
        }
    }
    assert forall|a: (Seq<char>, Seq<char>), b: (Seq<char>, Seq<char>)| a != b implies #[trigger] lt(
        a,
        b,
    ) || lt(b, a) by {
        lemma_seq_lt_total(a.0, b.0);
        lemma_seq_lt_total(a.1, b.1);
    }
}

proof fn lemma_smoke_lines_by_keys(a: Seq<LinkView>, b: Seq<LinkView>)
    requires
        a.map_values(subject_object_key()) == b.map_values(subject_object_key()),
    ensures
        spec_smoke_lines(a) == spec_smoke_lines(b),
    decreases a.len(),
{
    assert(a.len() == a.map_values(subject_object_key()).len());
    assert(b.len() == b.map_values(subject_object_key()).len());
    if a.len() > 0 {
        assert(a.drop_last().map_values(subject_object_key()) =~= b.drop_last().map_values(
            subject_object_key(),
        )) by {
            assert forall|i: int| 0 <= i < a.len() - 1 implies a.drop_last().map_values(
                subject_object_key(),
            )[i] == b.drop_last().map_values(subject_object_key())[i] by {
                assert(a.map_values(subject_object_key())[i] == b.map_values(
                    subject_object_key(),
                )[i]);
            }
        }
        lemma_smoke_lines_by_keys(a.drop_last(), b.drop_last());
        assert(a.map_values(subject_object_key())[a.len() - 1] == b.map_values(
            subject_object_key(),
        )[a.len() - 1]);
    }
}

/// The smoke script depends only on the `SMOKES_BY` links, taken as a
/// multiset: their order in the graph, and every other link, do not matter.
pub proof fn lemma_smoke_ignores_order(c1: CompositionView, c2: CompositionView)
    requires
        c1.links.filter(has_predicate(Predicate::SmokesBy)).to_multiset() == c2.links.filter(
            has_predicate(Predicate::SmokesBy),
        ).to_multiset(),
    ensures
        spec_smoke(c1) == spec_smoke(c2),
{
    let f1 = c1.links.filter(has_predicate(Predicate::SmokesBy));
    let f2 = c2.links.filter(has_predicate(Predicate::SmokesBy));
    lemma_link_subject_object_order();
    lemma_sort_by(f1, link_subject_object_lt());
    lemma_sort_by(f2, link_subject_object_lt());
    assert(link_subject_object_lt() =~= by_key(subject_object_key(), pair_order()));
    lemma_pair_order_total();
    lemma_sorted_same_keys(
        spec_smokes(c1),
        spec_smokes(c2),
        subject_object_key(),
        pair_order(),
    );
    lemma_smoke_lines_by_keys(spec_smokes(c1), spec_smokes(c2));
}

proof fn lemma_contains_via_multiset<T>(a: Seq<T>, b: Seq<T>, x: T)
    requires
        a.to_multiset() == b.to_multiset(),
        a.contains(x),
    ensures
        b.contains(x),
{
    broadcast use vstd::seq_lib::group_to_multiset_ensures;

    assert(a.to_multiset().count(x) > 0);
}

proof fn lemma_named_entity(es: Seq<EntityView>, e: EntityView)
    requires
        names_distinct(es),
        es.contains(e),
    ensures
        first_index(es, named(e.name)) == Some(
            choose|k: int| 0 <= k < es.len() && es[k] == e,
        ),
        es[(choose|k: int| 0 <= k < es.len() && es[k] == e)] == e,
{
    let k = choose|k: int| 0 <= k < es.len() && es[k] == e;
    let p = named(e.name);
    lemma_first_index_found(es, p);
    let j = first_index(es, p)->0;
    assert(p(es[k]));
    assert(first_index(es, p) is Some);
    assert(j == k) by {
        if j != k {
            assert(es[j].name == es[k].name);
        }
    }
}

/// With distinct names, the image reference of a name does not depend on the
/// order of the entities or of the links.
proof fn lemma_image_ref_ignores_order(c1: CompositionView, c2: CompositionView, name: Seq<char>)
    requires
        c1.entities.to_multiset() == c2.entities.to_multiset(),
        names_distinct(c1.entities),
        names_distinct(c2.entities),
    ensures
        spec_image_ref(c1, name) == spec_image_ref(c2, name),
{
    lemma_first_index_found(c1.entities, named(name));
    lemma_first_index_found(c2.entities, named(name));
    if first_index(c1.entities, named(name)) is Some {
        let i = first_index(c1.entities, named(name))->0;
        let e = c1.entities[i];
        assert(c1.entities.contains(e));
        lemma_contains_via_multiset(c1.entities, c2.entities, e);
        lemma_named_entity(c2.entities, e);
    } else if first_index(c2.entities, named(name)) is Some {
        let j = first_index(c2.entities, named(name))->0;
        let e = c2.entities[j];
        assert(c2.entities.contains(e));
        lemma_contains_via_multiset(c2.entities, c1.entities, e);
        let k = choose|k: int| 0 <= k < c1.entities.len() && c1.entities[k] == e;
        assert((named(name))(c1.entities[k]));
    }
}

/// With distinct names, the entities of a kind, sorted by name, do not depend
/// on the order of the entities.
proof fn lemma_entities_of_ignores_order(c1: CompositionView, c2: CompositionView, p: spec_fn(
    EntityView,
) -> bool)
    requires
        c1.entities.to_multiset() == c2.entities.to_multiset(),
        names_distinct(c2.entities),
    ensures
        sort_by(c1.entities.filter(p), entity_name_lt()) == sort_by(
            c2.entities.filter(p),
            entity_name_lt(),
        ),
{
    let f1 = c1.entities.filter(p);
    let f2 = c2.entities.filter(p);
    let a = sort_by(f1, entity_name_lt());
    let b = sort_by(f2, entity_name_lt());
    lemma_filter_multiset(c1.entities, c2.entities, p);
    lemma_entity_name_order();
    lemma_sort_by(f1, entity_name_lt());
    lemma_sort_by(f2, entity_name_lt());
    assert(entity_name_lt() =~= by_key(name_key(), seq_order()));
    lemma_seq_order_total();
    lemma_sorted_same_keys(a, b, name_key(), seq_order());
    assert(a.len() == a.map_values(name_key()).len());
    assert(b.len() == b.map_values(name_key()).len());
    assert forall|i: int| 0 <= i < a.len() implies a[i] == b[i] by {
        assert(a.map_values(name_key())[i] == b.map_values(name_key())[i]);
        assert(a.contains(a[i]));
        lemma_contains_via_multiset(a, f1, a[i]);
        c1.entities.lemma_filter_contains_rev(p, a[i]);
        lemma_contains_via_multiset(c1.entities, c2.entities, a[i]);
        assert(b.contains(b[i]));
        lemma_contains_via_multiset(b, f2, b[i]);
        c2.entities.lemma_filter_contains_rev(p, b[i]);
        let x = choose|k: int| 0 <= k < c2.entities.len() && c2.entities[k] == a[i];
        let y = choose|k: int| 0 <= k < c2.entities.len() && c2.entities[k] == b[i];
        if x != y {
            assert(c2.entities[x].name != c2.entities[y].name);
        }
    }
    assert(a =~= b);
}

/// `bundle.yaml` does not depend on the order of the entities or of the
/// links, when no two entities share a name.
pub proof fn lemma_bundle_yaml_ignores_order(
    c1: CompositionView,
    c2: CompositionView,
    root: EntityView,
)
    requires
        c1.entities.to_multiset() == c2.entities.to_multiset(),
        c1.links.to_multiset() == c2.links.to_multiset(),
        names_distinct(c1.entities),
        names_distinct(c2.entities),
    ensures
        spec_bundle_yaml(c1, root) == spec_bundle_yaml(c2, root),
{
    // The base line.
    let p = edge_of(root.name, Predicate::InheritsFrom);
    let f1 = c1.links.filter(p);
    let f2 = c2.links.filter(p);
    let inh1 = spec_edges(c1, root.name, Predicate::InheritsFrom);
    let inh2 = spec_edges(c2, root.name, Predicate::InheritsFrom);
    lemma_filter_multiset(c1.links, c2.links, p);
    lemma_link_object_order();
    lemma_sort_by(f1, link_object_lt());
    lemma_sort_by(f2, link_object_lt());
    assert(link_object_lt() =~= by_key(object_key(), seq_order()));
    lemma_seq_order_total();
    lemma_sorted_same_keys(inh1, inh2, object_key(), seq_order());
    assert(inh1.len() == inh1.map_values(object_key()).len());
    assert(inh2.len() == inh2.map_values(object_key()).len());
    if inh1.len() > 0 {
        assert(inh1.map_values(object_key())[0] == inh2.map_values(object_key())[0]);
        lemma_image_ref_ignores_order(c1, c2, inh1[0].object);
    }
    assert(spec_base_line(c1, root) == spec_base_line(c2, root));
    // The sections.
    lemma_entities_of_ignores_order(c1, c2, of_type(EntityType::DbExtension));
    lemma_entities_of_ignores_order(c1, c2, of_type(EntityType::StaticArtifact));
    lemma_entities_of_ignores_order(c1, c2, of_type(EntityType::Process));
    assert(spec_section(c1, "extensions:\n"@, EntityType::DbExtension) == spec_section(
        c2,
        "extensions:\n"@,
        EntityType::DbExtension,
    ));
    assert(spec_section(c1, "components:\n"@, EntityType::StaticArtifact) == spec_section(
        c2,
        "components:\n"@,
        EntityType::StaticArtifact,
    ));
    assert(spec_processes(c1) == spec_processes(c2));
}


/// Edges with the same object keep the order the links have in the graph.
pub proof fn lemma_edges_stable(c: CompositionView, subject: Seq<char>, pred: Predicate, object: Seq<char>)
    ensures
        spec_edges(c, subject, pred).filter(key_is(object_key(), object)) == c.links.filter(
            edge_of(subject, pred),
        ).filter(key_is(object_key(), object)),
{
    assert(link_object_lt() =~= by_key(object_key(), seq_order()));
    lemma_seq_order_total();
    lemma_sort_stable(c.links.filter(edge_of(subject, pred)), object_key(), seq_order(), object);
}


// ---- the lines of the Dockerfile -----------------------------------------------

/// Text made of these lines, each ended by a newline.
pub open spec fn unlines(ls: Seq<Seq<char>>) -> Seq<char>
    decreases ls.len(),
{
    if ls.len() == 0 {
        seq![]
    } else {
        unlines(ls.drop_last()) + ls.last() + "\n"@
    }
}

proof fn lemma_unlines_add(a: Seq<Seq<char>>, b: Seq<Seq<char>>)
    ensures
        unlines(a + b) == unlines(a) + unlines(b),
    decreases b.len(),
{
    if b.len() == 0 {
        assert(a + b =~= a);
        assert(unlines(a) + unlines(b) =~= unlines(a));
    } else {
        assert((a + b).drop_last() =~= a + b.drop_last());
        assert((a + b).last() == b.last());
        lemma_unlines_add(a, b.drop_last());
        assert(unlines(a + b) =~= unlines(a) + unlines(b));
    }
}

proof fn lemma_unlines_one(x: Seq<char>)
    ensures
        unlines(seq![x]) == x + "\n"@,
{
    assert(seq![x].drop_last() =~= Seq::<Seq<char>>::empty());
    assert(unlines(Seq::<Seq<char>>::empty()) == Seq::<char>::empty());
    assert(seq![x].last() == x);
    assert(unlines(seq![x]) == unlines(seq![x].drop_last()) + x + "\n"@);
    assert(unlines(seq![x]) =~= x + "\n"@);
}

proof fn lemma_unlines_two(x: Seq<char>, y: Seq<char>)
    ensures
        unlines(seq![x, y]) == x + "\n"@ + y + "\n"@,
{
    lemma_unlines_one(x);
    assert(seq![x, y].drop_last() =~= seq![x]);
    assert(unlines(seq![x, y]) =~= x + "\n"@ + y + "\n"@);
}

proof fn lemma_unlines_three(x: Seq<char>, y: Seq<char>, z: Seq<char>)
    ensures
        unlines(seq![x, y, z]) == x + "\n"@ + y + "\n"@ + z + "\n"@,
{
    lemma_unlines_two(x, y);
    assert(seq![x, y, z].drop_last() =~= seq![x, y]);
    assert(unlines(seq![x, y, z]) =~= x + "\n"@ + y + "\n"@ + z + "\n"@);
}

pub open spec fn build_kind(l: LinkView) -> Seq<char> {
    or_default(spec_meta_str(l.meta, "kind"@), "build"@)
}

pub open spec fn build_package(l: LinkView) -> Seq<char> {
    or_default(spec_meta_str(l.meta, "package"@), l.object)
}

pub open spec fn build_pair(l: LinkView) -> Seq<Seq<char>> {
    seq![
        "# BUILDS "@ + l.object + " ("@ + build_kind(l) + ")"@,
        "RUN sporaxis-build --"@ + build_kind(l) + " "@ + build_package(l) + "   # → "@ + l.object,
    ]
}

pub open spec fn build_lines_of(ls: Seq<LinkView>) -> Seq<Seq<char>>
    decreases ls.len(),
{
    if ls.len() == 0 {
        seq![]
    } else {
        build_lines_of(ls.drop_last()) + build_pair(ls.last())
    }
}

pub open spec fn copy_text(c: CompositionView, l: LinkView) -> Seq<char> {
    let dest = or_default(spec_meta_str(l.meta, "mount_at"@), "/"@);
    let paths = spec_meta_paths(l.meta);
    let paths_s = if paths.len() == 0 {
        "/"@
    } else {
        join(paths, " "@)
    };
    "COPY --from="@ + spec_image_ref(c, l.object) + " "@ + paths_s + " "@ + dest
}

pub open spec fn copy_lines_of(c: CompositionView, ls: Seq<LinkView>) -> Seq<Seq<char>>
    decreases ls.len(),
{
    if ls.len() == 0 {
        seq![]
    } else {
        copy_lines_of(c, ls.drop_last()) + seq![copy_text(c, ls.last())]
    }
}

pub open spec fn longrun_lines_of(ls: Seq<LinkView>) -> Seq<Seq<char>>
    decreases ls.len(),
{
    if ls.len() == 0 {
        seq![]
    } else {
        longrun_lines_of(ls.drop_last()) + seq!["#   longrun: "@ + ls.last().object]
    }
}

/// The title label line of a fleet image.
pub open spec fn title_line(root: EntityView) -> Seq<char> {
    "LABEL org.opencontainers.image.title="@ + root.name
}

/// The version label line of a fleet image (`0` when it has no version).
pub open spec fn version_line(root: EntityView) -> Seq<char> {
    "LABEL org.opencontainers.image.version="@ + or_default(root.version, "0"@)
}

/// The opening comment lines of the Dockerfile.
pub open spec fn head_lines(root: EntityView) -> Seq<Seq<char>> {
    seq![
        "# Generated by sporaxis — do not edit; edit the composition and re-compose."@,
        "# bundle: "@ + root.name + " ("@ + or_default(root.version, "?"@) + ")"@,
        seq![],
    ]
}

/// The `FROM` line and the blank line after it, when the root inherits.
pub open spec fn from_lines(c: CompositionView, root: EntityView) -> Seq<Seq<char>> {
    let inh = spec_edges(c, root.name, Predicate::InheritsFrom);
    if inh.len() > 0 {
        seq!["FROM "@ + spec_image_ref(c, inh[0].object), seq![]]
    } else {
        seq![]
    }
}

/// The build steps and a blank line, when the root builds anything.
pub open spec fn builds_lines(c: CompositionView, root: EntityView) -> Seq<Seq<char>> {
    let builds = spec_edges(c, root.name, Predicate::Builds);
    if builds.len() > 0 {
        build_lines_of(builds) + seq![seq![]]
    } else {
        seq![]
    }
}

/// The `COPY --from` lines and a blank line.
pub open spec fn copies_lines(c: CompositionView, root: EntityView) -> Seq<Seq<char>> {
    copy_lines_of(c, spec_edges(c, root.name, Predicate::CopiesFrom)) + seq![seq![]]
}

/// The label block: a comment, then the title and version labels.
pub open spec fn label_lines(root: EntityView) -> Seq<Seq<char>> {
    seq![
        "# I7 — labels derive only from the oci:FleetImage entity"@,
        title_line(root),
        version_line(root),
    ]
}

/// The s6 lines, when the root supervises anything.
pub open spec fn supervision_lines(c: CompositionView, root: EntityView) -> Seq<Seq<char>> {
    let sup = spec_edges(c, root.name, Predicate::Supervises);
    if sup.len() > 0 {
        seq![
            seq![],
            "# s6 service tree (SUPERVISES) — see out/s6-services/"@,
            "COPY s6-services/ /etc/s6-overlay/s6-rc.d/"@,
        ] + longrun_lines_of(sup)
    } else {
        seq![]
    }
}

/// The lines of the Dockerfile, without their newlines.
pub open spec fn docker_lines(c: CompositionView, root: EntityView) -> Seq<Seq<char>> {
    head_lines(root) + from_lines(c, root) + builds_lines(c, root) + copies_lines(c, root)
        + label_lines(root) + supervision_lines(c, root)
}

proof fn lemma_build_lines(ls: Seq<LinkView>)
    ensures
        spec_build_lines(ls) == unlines(build_lines_of(ls)),
    decreases ls.len(),
{
    if ls.len() > 0 {
        lemma_build_lines(ls.drop_last());
        let l = ls.last();
        lemma_unlines_add(build_lines_of(ls.drop_last()), build_pair(l));
        lemma_unlines_two(build_pair(l)[0], build_pair(l)[1]);
        assert(build_pair(l) =~= seq![build_pair(l)[0], build_pair(l)[1]]);
        assert(spec_build_line(l) =~= unlines(build_pair(l)));
    }
}

proof fn lemma_copy_lines(c: CompositionView, ls: Seq<LinkView>)
    ensures
        spec_copy_lines(c, ls) == unlines(copy_lines_of(c, ls)),
    decreases ls.len(),
{
    if ls.len() > 0 {
        lemma_copy_lines(c, ls.drop_last());
        lemma_unlines_add(copy_lines_of(c, ls.drop_last()), seq![copy_text(c, ls.last())]);
        lemma_unlines_one(copy_text(c, ls.last()));
        assert(spec_copy_line(c, ls.last()) =~= copy_text(c, ls.last()) + "\n"@);
    }
}

proof fn lemma_longrun_lines(ls: Seq<LinkView>)
    ensures
        spec_longrun_lines(ls) == unlines(longrun_lines_of(ls)),
    decreases ls.len(),
{
    if ls.len() > 0 {
        lemma_longrun_lines(ls.drop_last());
        lemma_unlines_add(longrun_lines_of(ls.drop_last()), seq!["#   longrun: "@ + ls.last().object]);
        lemma_unlines_one("#   longrun: "@ + ls.last().object);
        assert(spec_longrun_lines(ls) =~= unlines(longrun_lines_of(ls)));
    }
}

/// The Dockerfile is its lines, each ended by a newline.
proof fn lemma_dockerfile_is_its_lines(c: CompositionView, root: EntityView)
    ensures
        spec_dockerfile(c, root) == unlines(docker_lines(c, root)),
{
    let inh = spec_edges(c, root.name, Predicate::InheritsFrom);
    let builds = spec_edges(c, root.name, Predicate::Builds);
    let copies = spec_edges(c, root.name, Predicate::CopiesFrom);
    let sup = spec_edges(c, root.name, Predicate::Supervises);
    let h = head_lines(root);
    let f = from_lines(c, root);
    let b = builds_lines(c, root);
    let cp = copies_lines(c, root);
    let lb = label_lines(root);
    let sp = supervision_lines(c, root);
    assert(docker_lines(c, root) == h + f + b + cp + lb + sp);
    lemma_unlines_add(h + f + b + cp + lb, sp);
    lemma_unlines_add(h + f + b + cp, lb);
    lemma_unlines_add(h + f + b, cp);
    lemma_unlines_add(h + f, b);
    lemma_unlines_add(h, f);
    lemma_unlines_three(h[0], h[1], h[2]);
    assert(h =~= seq![h[0], h[1], h[2]]);
    assert(unlines(h) =~= spec_docker_head(root));
    if inh.len() > 0 {
        lemma_unlines_two(f[0], f[1]);
        assert(f =~= seq![f[0], f[1]]);
        assert(unlines(f) =~= spec_from_block(c, root));
    } else {
        assert(unlines(f) =~= spec_from_block(c, root));
    }
    if builds.len() > 0 {
        lemma_build_lines(builds);
        lemma_unlines_add(build_lines_of(builds), seq![seq![]]);
        lemma_unlines_one(seq![]);
        assert(unlines(b) =~= spec_builds_block(c, root));
    } else {
        assert(unlines(b) =~= spec_builds_block(c, root));
    }
    lemma_copy_lines(c, copies);
    lemma_unlines_add(copy_lines_of(c, copies), seq![seq![]]);
    lemma_unlines_one(seq![]);
    assert(unlines(cp) =~= spec_copies_block(c, root));
    lemma_unlines_three(lb[0], lb[1], lb[2]);
    assert(lb =~= seq![lb[0], lb[1], lb[2]]);
    assert(unlines(lb) =~= spec_labels(root));
    if sup.len() > 0 {
        let s3 = seq![
            seq![],
            "# s6 service tree (SUPERVISES) — see out/s6-services/"@,
            "COPY s6-services/ /etc/s6-overlay/s6-rc.d/"@,
        ];
        lemma_unlines_add(s3, longrun_lines_of(sup));
        lemma_unlines_three(s3[0], s3[1], s3[2]);
        assert(s3 =~= seq![s3[0], s3[1], s3[2]]);
        lemma_longrun_lines(sup);
        assert(unlines(sp) =~= spec_supervision_block(c, root));
    } else {
        assert(unlines(sp) =~= spec_supervision_block(c, root));
    }
}


// ---- only the root's two LABEL lines ----------------------------------------

/// A line that starts with `LABEL `.
pub open spec fn is_label_line(l: Seq<char>) -> bool {
    l.len() >= 6 && l.subrange(0, 6) == "LABEL "@
}

pub open spec fn label_line() -> spec_fn(Seq<char>) -> bool {
    |l: Seq<char>| is_label_line(l)
}

/// `s` holds no newline.
pub open spec fn no_nl(s: Seq<char>) -> bool {
    !s.contains('\n')
}

pub open spec fn opt_no_nl(o: Option<Seq<char>>) -> bool {
    match o {
        Some(s) => no_nl(s),
        None => true,
    }
}

pub open spec fn entity_no_nl(e: EntityView) -> bool {
    no_nl(e.name) && opt_no_nl(e.version) && opt_no_nl(e.placement_layer)
}

pub open spec fn meta_no_nl(m: Map<Seq<char>, MetaValueView>) -> bool {
    forall|k: Seq<char>|
        #[trigger] m.dom().contains(k) ==> match m[k] {
            MetaValueView::Text(s) => no_nl(s),
            MetaValueView::List(items) => forall|i: int|
                0 <= i < items.len() ==> opt_no_nl(#[trigger] items[i]),
            MetaValueView::Other => true,
        }
}

pub open spec fn link_no_nl(l: LinkView) -> bool {
    no_nl(l.subject) && no_nl(l.object) && meta_no_nl(l.meta)
}

/// No text of the graph holds a newline.
pub open spec fn graph_no_nl(c: CompositionView) -> bool {
    &&& forall|i: int| 0 <= i < c.entities.len() ==> entity_no_nl(#[trigger] c.entities[i])
    &&& forall|i: int| 0 <= i < c.links.len() ==> link_no_nl(#[trigger] c.links[i])
}

pub broadcast proof fn lemma_no_nl_add(a: Seq<char>, b: Seq<char>)
    requires
        no_nl(a),
        no_nl(b),
    ensures
        #[trigger] no_nl(a + b),
{
    if (a + b).contains('\n') {
        let i = choose|i: int| 0 <= i < (a + b).len() && (a + b)[i] == '\n';
        if i < a.len() {
            assert(a[i] == (a + b)[i]);
        } else {
            assert(b[i - a.len()] == (a + b)[i]);
        }
    }
}

proof fn lemma_empty_no_nl()
    ensures
        no_nl(Seq::<char>::empty()),
{
}

proof fn lemma_not_label(l: Seq<char>)
    requires
        l.len() == 0 || l[0] != 'L',
    ensures
        !is_label_line(l),
{
    reveal_strlit("LABEL ");
    if l.len() >= 6 && l.subrange(0, 6) == "LABEL "@ {
        assert(l.subrange(0, 6)[0] == l[0]);
    }
}

proof fn lemma_join_no_nl(list: Seq<Seq<char>>, sep: Seq<char>)
    requires
        no_nl(sep),
        forall|i: int| 0 <= i < list.len() ==> no_nl(#[trigger] list[i]),
    ensures
        no_nl(join(list, sep)),
    decreases list.len(),
{
    broadcast use lemma_no_nl_add;

    if list.len() > 1 {
        let t = list.drop_last();
        assert forall|i: int| 0 <= i < t.len() implies no_nl(#[trigger] t[i]) by {
            assert(t[i] == list[i]);
        }
        lemma_join_no_nl(t, sep);
        assert(no_nl(list.last()));
    } else if list.len() == 1 {
        assert(no_nl(list[0]));
    }
}

proof fn lemma_meta_no_nl(m: Map<Seq<char>, MetaValueView>, key: Seq<char>)
    requires
        meta_no_nl(m),
    ensures
        opt_no_nl(spec_meta_str(m, key)),
        forall|i: int|
            0 <= i < spec_meta_paths(m).len() ==> no_nl(#[trigger] spec_meta_paths(m)[i]),
{
    if m.dom().contains(key) {
        assert(m.dom().contains(key));
    }
    if m.dom().contains("paths"@) {
        match m["paths"@] {
            MetaValueView::List(items) => {
                let ps = items.filter_map(keep_text());
                assert forall|i: int| 0 <= i < ps.len() implies no_nl(#[trigger] ps[i]) by {
                    assert(ps.contains(ps[i]));
                    items.lemma_filter_map_contains(keep_text(), ps[i]);
                    let t = choose|t: Option<Seq<char>>| #[trigger] items.contains(t) && (keep_text())(t)
                        == Some(ps[i]);
                    let j = choose|j: int| 0 <= j < items.len() && items[j] == t;
                    assert(opt_no_nl(items[j]));
                }
            },
            MetaValueView::Text(s) => {},
            MetaValueView::Other => {},
        }
    }
}

proof fn lemma_edges_no_nl(c: CompositionView, subject: Seq<char>, pred: Predicate)
    requires
        graph_no_nl(c),
    ensures
        forall|i: int|
            0 <= i < spec_edges(c, subject, pred).len() ==> link_no_nl(
                #[trigger] spec_edges(c, subject, pred)[i],
            ),
{
    broadcast use vstd::seq_lib::group_to_multiset_ensures;

    lemma_edges_sorted(c, subject, pred);
    let e = spec_edges(c, subject, pred);
    let f = c.links.filter(edge_of(subject, pred));
    assert forall|i: int| 0 <= i < e.len() implies link_no_nl(#[trigger] e[i]) by {
        assert(e.contains(e[i]));
        assert(e.to_multiset().count(e[i]) > 0);
        assert(f.contains(e[i]));
        c.links.lemma_filter_contains_rev(edge_of(subject, pred), e[i]);
        let j = choose|j: int| 0 <= j < c.links.len() && c.links[j] == e[i];
        assert(link_no_nl(c.links[j]));
    }
}

proof fn lemma_image_ref_no_nl(c: CompositionView, name: Seq<char>)
    requires
        graph_no_nl(c),
        no_nl(name),
    ensures
        no_nl(spec_image_ref(c, name)),
{
    broadcast use lemma_no_nl_add;

    reveal_strlit(":");
    reveal_strlit("latest");
    assert(no_nl(":"@));
    assert(no_nl("latest"@));
    lemma_first_index_found(c.entities, named(name));
    if spec_by_name(c, name) is Some {
        let i = spec_by_name(c, name)->0;
        assert(entity_no_nl(c.entities[i]));
    }
}

proof fn lemma_build_lines_plain(ls: Seq<LinkView>)
    requires
        forall|i: int| 0 <= i < ls.len() ==> link_no_nl(#[trigger] ls[i]),
    ensures
        forall|i: int|
            0 <= i < build_lines_of(ls).len() ==> no_nl(#[trigger] build_lines_of(ls)[i])
                && !is_label_line(build_lines_of(ls)[i]),
    decreases ls.len(),
{
    broadcast use lemma_no_nl_add;

    if ls.len() > 0 {
        let t = ls.drop_last();
        assert forall|i: int| 0 <= i < t.len() implies link_no_nl(#[trigger] t[i]) by {
            assert(t[i] == ls[i]);
        }
        lemma_build_lines_plain(t);
        let l = ls.last();
        assert(link_no_nl(l));
        lemma_meta_no_nl(l.meta, "kind"@);
        lemma_meta_no_nl(l.meta, "package"@);
        reveal_strlit("# BUILDS ");
        reveal_strlit(" (");
        reveal_strlit(")");
        reveal_strlit("build");
        reveal_strlit("RUN sporaxis-build --");
        reveal_strlit(" ");
        reveal_strlit("   # → ");
        assert(no_nl("# BUILDS "@) && no_nl(" ("@) && no_nl(")"@) && no_nl("build"@));
        assert(no_nl("RUN sporaxis-build --"@) && no_nl(" "@) && no_nl("   # → "@));
        let p = build_pair(l);
        assert(no_nl(build_kind(l)));
        assert(no_nl(build_package(l)));
        assert(no_nl(p[0]) && no_nl(p[1]));
        lemma_not_label(p[0]);
        lemma_not_label(p[1]);
        let all = build_lines_of(ls);
        assert forall|i: int| 0 <= i < all.len() implies no_nl(#[trigger] all[i]) && !is_label_line(
            all[i],
        ) by {
            if i < build_lines_of(t).len() {
                assert(all[i] == build_lines_of(t)[i]);
            } else {
                assert(all[i] == p[i - build_lines_of(t).len()]);
            }
        }
    }
}

proof fn lemma_copy_lines_plain(c: CompositionView, ls: Seq<LinkView>)
    requires
        graph_no_nl(c),
        forall|i: int| 0 <= i < ls.len() ==> link_no_nl(#[trigger] ls[i]),
    ensures
        forall|i: int|
            0 <= i < copy_lines_of(c, ls).len() ==> no_nl(#[trigger] copy_lines_of(c, ls)[i])
                && !is_label_line(copy_lines_of(c, ls)[i]),
    decreases ls.len(),
{
    broadcast use lemma_no_nl_add;

    if ls.len() > 0 {
        let t = ls.drop_last();
        assert forall|i: int| 0 <= i < t.len() implies link_no_nl(#[trigger] t[i]) by {
            assert(t[i] == ls[i]);
        }
        lemma_copy_lines_plain(c, t);
        let l = ls.last();
        assert(link_no_nl(l));
        lemma_meta_no_nl(l.meta, "mount_at"@);
        lemma_image_ref_no_nl(c, l.object);
        reveal_strlit("COPY --from=");
        reveal_strlit(" ");
        reveal_strlit("/");
        assert(no_nl("COPY --from="@) && no_nl(" "@) && no_nl("/"@));
        let paths = spec_meta_paths(l.meta);
        if paths.len() > 0 {
            lemma_join_no_nl(paths, " "@);
        }
        let x = copy_text(c, l);
        assert(no_nl(x));
        lemma_not_label(x);
        let all = copy_lines_of(c, ls);
        assert forall|i: int| 0 <= i < all.len() implies no_nl(#[trigger] all[i]) && !is_label_line(
            all[i],
        ) by {
            if i < copy_lines_of(c, t).len() {
                assert(all[i] == copy_lines_of(c, t)[i]);
            } else {
                assert(all[i] == x);
            }
        }
    }
}

proof fn lemma_longrun_lines_plain(ls: Seq<LinkView>)
    requires
        forall|i: int| 0 <= i < ls.len() ==> link_no_nl(#[trigger] ls[i]),
    ensures
        forall|i: int|
            0 <= i < longrun_lines_of(ls).len() ==> no_nl(#[trigger] longrun_lines_of(ls)[i])
                && !is_label_line(longrun_lines_of(ls)[i]),
    decreases ls.len(),
{
    broadcast use lemma_no_nl_add;

    if ls.len() > 0 {
        let t = ls.drop_last();
        assert forall|i: int| 0 <= i < t.len() implies link_no_nl(#[trigger] t[i]) by {
            assert(t[i] == ls[i]);
        }
        lemma_longrun_lines_plain(t);
        let l = ls.last();
        assert(link_no_nl(l));
        reveal_strlit("#   longrun: ");
        assert(no_nl("#   longrun: "@));
        let x = "#   longrun: "@ + l.object;
        assert(no_nl(x));
        lemma_not_label(x);
        let all = longrun_lines_of(ls);
        assert forall|i: int| 0 <= i < all.len() implies no_nl(#[trigger] all[i]) && !is_label_line(
            all[i],
        ) by {
            if i < longrun_lines_of(t).len() {
                assert(all[i] == longrun_lines_of(t)[i]);
            } else {
                assert(all[i] == x);
            }
        }
    }
}

/// No line holds a newline.
pub open spec fn lines_no_nl(s: Seq<Seq<char>>) -> bool {
    forall|i: int| 0 <= i < s.len() ==> no_nl(#[trigger] s[i])
}

/// No line holds a newline, and none starts with `LABEL `.
pub open spec fn plain_lines(s: Seq<Seq<char>>) -> bool {
    forall|i: int| 0 <= i < s.len() ==> no_nl(#[trigger] s[i]) && !is_label_line(s[i])
}

proof fn lemma_lines_no_nl_add(a: Seq<Seq<char>>, b: Seq<Seq<char>>)
    requires
        lines_no_nl(a),
        lines_no_nl(b),
    ensures
        lines_no_nl(a + b),
{
    assert forall|i: int| 0 <= i < (a + b).len() implies no_nl(#[trigger] (a + b)[i]) by {
        if i < a.len() {
            assert((a + b)[i] == a[i]);
        } else {
            assert((a + b)[i] == b[i - a.len()]);
        }
    }
}

proof fn lemma_plain_lines_add(a: Seq<Seq<char>>, b: Seq<Seq<char>>)
    requires
        plain_lines(a),
        plain_lines(b),
    ensures
        plain_lines(a + b),
{
    assert forall|i: int| 0 <= i < (a + b).len() implies no_nl(#[trigger] (a + b)[i])
        && !is_label_line((a + b)[i]) by {
        if i < a.len() {
            assert((a + b)[i] == a[i]);
        } else {
            assert((a + b)[i] == b[i - a.len()]);
        }
    }
}

proof fn lemma_plain_filter(s: Seq<Seq<char>>)
    requires
        plain_lines(s),
    ensures
        s.filter(label_line()) == Seq::<Seq<char>>::empty(),
        lines_no_nl(s),
{
    assert forall|i: int| 0 <= i < s.len() implies !(label_line())(#[trigger] s[i]) by {}
    lemma_filter_none(s, label_line());
}

proof fn lemma_head_plain(root: EntityView)
    requires
        entity_no_nl(root),
    ensures
        plain_lines(head_lines(root)),
{
    broadcast use lemma_no_nl_add;

    reveal_strlit("# Generated by sporaxis — do not edit; edit the composition and re-compose.");
    reveal_strlit("# bundle: ");
    reveal_strlit(" (");
    reveal_strlit("?");
    reveal_strlit(")");
    lemma_empty_no_nl();
    let h = head_lines(root);
    assert(no_nl(or_default(root.version, "?"@)));
    assert(no_nl(h[0]));
    assert(no_nl(h[1]));
    lemma_not_label(h[0]);
    lemma_not_label(h[1]);
    lemma_not_label(h[2]);
    assert forall|i: int| 0 <= i < h.len() implies no_nl(#[trigger] h[i]) && !is_label_line(h[i]) by {}
}

proof fn lemma_from_plain(c: CompositionView, root: EntityView)
    requires
        graph_no_nl(c),
    ensures
        plain_lines(from_lines(c, root)),
{
    broadcast use lemma_no_nl_add;

    let inh = spec_edges(c, root.name, Predicate::InheritsFrom);
    let f = from_lines(c, root);
    if inh.len() > 0 {
        lemma_edges_no_nl(c, root.name, Predicate::InheritsFrom);
        assert(link_no_nl(inh[0]));
        lemma_image_ref_no_nl(c, inh[0].object);
        reveal_strlit("FROM ");
        assert(no_nl("FROM "@));
        lemma_not_label(f[0]);
        lemma_empty_no_nl();
        lemma_not_label(f[1]);
        assert forall|i: int| 0 <= i < f.len() implies no_nl(#[trigger] f[i]) && !is_label_line(
            f[i],
        ) by {}
    }
}

proof fn lemma_builds_plain(c: CompositionView, root: EntityView)
    requires
        graph_no_nl(c),
    ensures
        plain_lines(builds_lines(c, root)),
{
    let builds = spec_edges(c, root.name, Predicate::Builds);
    if builds.len() > 0 {
        lemma_edges_no_nl(c, root.name, Predicate::Builds);
        lemma_build_lines_plain(builds);
        lemma_empty_no_nl();
        lemma_not_label(seq![]);
        lemma_plain_lines_add(build_lines_of(builds), seq![seq![]]);
    }
}

proof fn lemma_copies_plain(c: CompositionView, root: EntityView)
    requires
        graph_no_nl(c),
    ensures
        plain_lines(copies_lines(c, root)),
{
    let copies = spec_edges(c, root.name, Predicate::CopiesFrom);
    lemma_edges_no_nl(c, root.name, Predicate::CopiesFrom);
    lemma_copy_lines_plain(c, copies);
    lemma_empty_no_nl();
    lemma_not_label(seq![]);
    lemma_plain_lines_add(copy_lines_of(c, copies), seq![seq![]]);
}

proof fn lemma_supervision_plain(c: CompositionView, root: EntityView)
    requires
        graph_no_nl(c),
    ensures
        plain_lines(supervision_lines(c, root)),
{
    let sup = spec_edges(c, root.name, Predicate::Supervises);
    if sup.len() > 0 {
        reveal_strlit("# s6 service tree (SUPERVISES) — see out/s6-services/");
        reveal_strlit("COPY s6-services/ /etc/s6-overlay/s6-rc.d/");
        let s3 = seq![
            seq![],
            "# s6 service tree (SUPERVISES) — see out/s6-services/"@,
            "COPY s6-services/ /etc/s6-overlay/s6-rc.d/"@,
        ];
        lemma_empty_no_nl();
        assert(no_nl(s3[1]));
        assert(no_nl(s3[2]));
        lemma_not_label(s3[0]);
        lemma_not_label(s3[1]);
        lemma_not_label(s3[2]);
        assert forall|i: int| 0 <= i < s3.len() implies no_nl(#[trigger] s3[i]) && !is_label_line(
            s3[i],
        ) by {}
        lemma_edges_no_nl(c, root.name, Predicate::Supervises);
        lemma_longrun_lines_plain(sup);
        lemma_plain_lines_add(s3, longrun_lines_of(sup));
    }
}

proof fn lemma_label_block(root: EntityView)
    requires
        entity_no_nl(root),
    ensures
        lines_no_nl(label_lines(root)),
        label_lines(root).filter(label_line()) == seq![title_line(root), version_line(root)],
{
    broadcast use lemma_no_nl_add;

    reveal_strlit("# I7 — labels derive only from the oci:FleetImage entity");
    reveal_strlit("LABEL org.opencontainers.image.title=");
    reveal_strlit("LABEL org.opencontainers.image.version=");
    reveal_strlit("0");
    reveal_strlit("LABEL ");
    let lb = label_lines(root);
    let t = title_line(root);
    let v = version_line(root);
    assert(no_nl(or_default(root.version, "0"@)));
    assert(no_nl(lb[0]) && no_nl(t) && no_nl(v));
    assert forall|i: int| 0 <= i < lb.len() implies no_nl(#[trigger] lb[i]) by {}
    lemma_not_label(lb[0]);
    assert(t.subrange(0, 6) =~= "LABEL "@);
    assert(v.subrange(0, 6) =~= "LABEL "@);
    let p = label_line();
    assert(plain_lines(seq![lb[0]]));
    lemma_plain_filter(seq![lb[0]]);
    reveal(Seq::filter);
    assert(seq![t, v].drop_last() =~= seq![t]);
    assert(seq![t].drop_last() =~= Seq::<Seq<char>>::empty());
    assert(Seq::<Seq<char>>::empty().filter(p) =~= Seq::<Seq<char>>::empty());
    assert(seq![t].filter(p) =~= seq![t]);
    assert(seq![t, v].filter(p) =~= seq![t, v]);
    assert(lb =~= seq![lb[0]] + seq![t, v]);
    Seq::filter_distributes_over_add(seq![lb[0]], seq![t, v], p);
    assert(lb.filter(p) =~= seq![t, v]);
}

/// I7, labels derive only from the fleet image: when no text of the graph or
/// of the root holds a newline, the Dockerfile is a sequence of lines, none
/// holding a newline, and the only lines that start with `LABEL ` are the
/// root's title and version, in that order, whatever else the graph holds.
pub proof fn lemma_only_root_labels(c: CompositionView, root: EntityView)
    requires
        graph_no_nl(c),
        entity_no_nl(root),
    ensures
        spec_dockerfile(c, root) == unlines(docker_lines(c, root)),
        lines_no_nl(docker_lines(c, root)),
        docker_lines(c, root).filter(label_line()) == seq![title_line(root), version_line(root)],
{
    lemma_dockerfile_is_its_lines(c, root);
    let h = head_lines(root);
    let f = from_lines(c, root);
    let b = builds_lines(c, root);
    let cp = copies_lines(c, root);
    let lb = label_lines(root);
    let sp = supervision_lines(c, root);
    lemma_head_plain(root);
    lemma_from_plain(c, root);
    lemma_builds_plain(c, root);
    lemma_copies_plain(c, root);
    lemma_supervision_plain(c, root);
    lemma_label_block(root);
    lemma_plain_lines_add(h, f);
    lemma_plain_lines_add(h + f, b);
    lemma_plain_lines_add(h + f + b, cp);
    let before = h + f + b + cp;
    lemma_plain_filter(before);
    lemma_plain_filter(sp);
    lemma_lines_no_nl_add(before, lb);
    lemma_lines_no_nl_add(before + lb, sp);
    let p = label_line();
    Seq::filter_distributes_over_add(before + lb, sp, p);
    Seq::filter_distributes_over_add(before, lb, p);
    assert(docker_lines(c, root) == before + lb + sp);
    assert((before + lb + sp).filter(p) =~= seq![title_line(root), version_line(root)]);
}


// ---- the output mode, by placement -------------------------------------------

/// `auto` resolves to `manifest` exactly when every entity carries a placement
/// layer or is the fleet image or a process, and to `dockerfile` exactly when
/// some entity is none of these (an upstream image, an artifact or an
/// extension without a placement layer). Any other mode is kept as given.
pub proof fn lemma_auto_mode_by_placement(c: CompositionView, mode: Seq<char>)
    ensures
        mode != "auto"@ ==> spec_resolve_mode(c, mode) == mode,
        spec_resolve_mode(c, "auto"@) == "manifest"@ <==> forall|i: int|
            0 <= i < c.entities.len() ==> (#[trigger] c.entities[i]).placement_layer is Some
                || c.entities[i].entity_type == EntityType::FleetImage
                || c.entities[i].entity_type == EntityType::Process,
        spec_resolve_mode(c, "auto"@) == "dockerfile"@ <==> exists|i: int|
            0 <= i < c.entities.len() && (#[trigger] c.entities[i]).placement_layer is None
                && c.entities[i].entity_type != EntityType::FleetImage
                && c.entities[i].entity_type != EntityType::Process,
{
    reveal_strlit("manifest");
    reveal_strlit("dockerfile");
    assert("manifest"@.len() != "dockerfile"@.len());
    if !all_layer_referenceable(c) {
        let i = choose|i: int|
            0 <= i < c.entities.len() && !layer_referenceable(#[trigger] c.entities[i]);
        assert(c.entities[i].placement_layer is None);
    }
}

/// The entity that forces `auto` to fall back is the first one that carries
/// no placement layer and is neither the fleet image nor a process; there is
/// none exactly when every entity carries a layer or is one of those two.
pub proof fn lemma_fallback_is_first_unplaced(c: CompositionView)
    ensures
        match first_index(c.entities, not_layer_referenceable()) {
            Some(i) => 0 <= i < c.entities.len() && c.entities[i].placement_layer is None
                && c.entities[i].entity_type != EntityType::FleetImage
                && c.entities[i].entity_type != EntityType::Process && forall|j: int|
                0 <= j < i ==> (#[trigger] c.entities[j]).placement_layer is Some
                    || c.entities[j].entity_type == EntityType::FleetImage
                    || c.entities[j].entity_type == EntityType::Process,
            None => forall|j: int|
                0 <= j < c.entities.len() ==> (#[trigger] c.entities[j]).placement_layer is Some
                    || c.entities[j].entity_type == EntityType::FleetImage
                    || c.entities[j].entity_type == EntityType::Process,
        },
{
    let p = not_layer_referenceable();
    lemma_first_index_found(c.entities, p);
    match first_index(c.entities, p) {
        Some(i) => {
            assert(p(c.entities[i]));
            assert forall|j: int| 0 <= j < i implies (#[trigger] c.entities[j]).placement_layer is Some
                || c.entities[j].entity_type == EntityType::FleetImage
                || c.entities[j].entity_type == EntityType::Process by {
                assert(!p(c.entities[j]));
            }
        },
        None => {
            assert forall|j: int| 0 <= j < c.entities.len() implies (
            #[trigger] c.entities[j]).placement_layer is Some
                || c.entities[j].entity_type == EntityType::FleetImage
                || c.entities[j].entity_type == EntityType::Process by {
                assert(!p(c.entities[j]));
            }
        },
    }
}

// ---- what sorting a filtered sequence keeps -----------------------------------

/// Sorting what satisfies `p` keeps each such element, and brings in nothing
/// else.
proof fn lemma_sorted_filter<T>(s: Seq<T>, p: spec_fn(T) -> bool, lt: spec_fn(T, T) -> bool)
    requires
        strict_order(lt),
    ensures
        forall|i: int| 0 <= i < s.len() && p(#[trigger] s[i]) ==> sort_by(s.filter(p), lt).contains(s[i]),
        forall|k: int|
            0 <= k < sort_by(s.filter(p), lt).len() ==> p(#[trigger] sort_by(s.filter(p), lt)[k])
                && s.contains(sort_by(s.filter(p), lt)[k]),
{
    broadcast use vstd::seq_lib::group_to_multiset_ensures;
    broadcast use vstd::seq_lib::group_filter_ensures;

    lemma_sort_by(s.filter(p), lt);
    let f = s.filter(p);
    let r = sort_by(f, lt);
    assert forall|i: int| 0 <= i < s.len() && p(#[trigger] s[i]) implies r.contains(s[i]) by {
        s.lemma_filter_contains(p, i);
        assert(f.to_multiset().count(s[i]) > 0);
        assert(r.to_multiset().count(s[i]) > 0);
    }
    assert forall|k: int| 0 <= k < r.len() implies p(#[trigger] r[k]) && s.contains(r[k]) by {
        assert(r.contains(r[k]));
        assert(r.to_multiset().count(r[k]) > 0);
        assert(f.to_multiset().count(r[k]) > 0);
        assert(f.contains(r[k]));
        s.lemma_filter_contains_rev(p, r[k]);
        let j = choose|j: int| 0 <= j < f.len() && f[j] == r[k];
        assert(p(f[j]));
    }
}

// ---- the manifest plan names its base and every placed layer -------------------

/// The line of the plan for a placed entity.
pub open spec fn layer_line(name: Seq<char>, layer: Seq<char>) -> Seq<char> {
    "  - "@ + name + " -> "@ + layer + "\n"@
}

proof fn lemma_layer_entries_hold(es: Seq<EntityView>, k: int)
    requires
        0 <= k < es.len(),
    ensures
        has_infix(
            spec_layer_entries(es),
            layer_line(es[k].name, or_default(es[k].placement_layer, seq![])),
        ),
    decreases es.len(),
{
    let rest = es.drop_last();
    let line = layer_line(es.last().name, or_default(es.last().placement_layer, seq![]));
    assert(spec_layer_entries(es) =~= spec_layer_entries(rest) + line);
    if k == es.len() - 1 {
        lemma_infix_self(line);
        lemma_infix_extend(line, line, spec_layer_entries(rest), seq![]);
        assert(spec_layer_entries(rest) + line + seq![] =~= spec_layer_entries(es));
    } else {
        assert(es[k] == rest[k]);
        lemma_layer_entries_hold(rest, k);
        lemma_infix_extend(
            spec_layer_entries(rest),
            layer_line(es[k].name, or_default(es[k].placement_layer, seq![])),
            seq![],
            line,
        );
        assert(seq![] + spec_layer_entries(rest) + line =~= spec_layer_entries(es));
    }
}

/// The opening lines of the plan: what it is, and the image it is for.
pub open spec fn plan_opening(root: EntityView) -> Seq<char> {
    "# Generated by sporaxis — manifest-mode layer plan (by-digest, no build).\n"@ + "# image: "@
        + root.name + " ("@ + or_default(root.version, "?"@) + ")\n"@
}

/// The manifest plan names the base image: when the root inherits, the line
/// after the image line is `base: ` and the image reference of the least
/// object (by name) that the root inherits from, and `layers:` follows it;
/// when the root inherits nothing, `layers:` follows the image line. Every
/// entity that carries a placement layer has its `  - name -> layer` line.
pub proof fn lemma_plan_names_base_and_layers(c: CompositionView, root: EntityView)
    ensures
        (forall|j: int|
            0 <= j < c.links.len() ==> !((#[trigger] c.links[j]).predicate == Predicate::InheritsFrom
                && c.links[j].subject == root.name)) ==> has_prefix(
            spec_manifest_plan(c, root),
            plan_opening(root) + "layers:\n"@,
        ),
        (exists|j: int|
            0 <= j < c.links.len() && (#[trigger] c.links[j]).predicate == Predicate::InheritsFrom
                && c.links[j].subject == root.name) ==> exists|o: Seq<char>|
            (exists|j: int|
                0 <= j < c.links.len() && (#[trigger] c.links[j]).predicate
                    == Predicate::InheritsFrom && c.links[j].subject == root.name
                    && c.links[j].object == o) && (forall|j: int|
                0 <= j < c.links.len() && (#[trigger] c.links[j]).predicate
                    == Predicate::InheritsFrom && c.links[j].subject == root.name ==> !seq_lt(
                    c.links[j].object,
                    o,
                )) && has_prefix(
                spec_manifest_plan(c, root),
                plan_opening(root) + "base: "@ + spec_image_ref(c, o) + "\n"@ + "layers:\n"@,
            ),
        forall|i: int|
            0 <= i < c.entities.len() && (#[trigger] c.entities[i]).placement_layer is Some
                ==> has_infix(
                spec_manifest_plan(c, root),
                layer_line(c.entities[i].name, c.entities[i].placement_layer->0),
            ),
{
    broadcast use vstd::seq_lib::group_to_multiset_ensures;

    let inh = spec_edges(c, root.name, Predicate::InheritsFrom);
    let q = edge_of(root.name, Predicate::InheritsFrom);
    lemma_link_object_order();
    lemma_sorted_filter(c.links, q, link_object_lt());
    lemma_edges_sorted(c, root.name, Predicate::InheritsFrom);
    let entries = spec_layer_entries(spec_placed(c));
    let plan = spec_manifest_plan(c, root);
    assert(spec_plan_head(root) =~= plan_opening(root));
    if inh.len() == 0 {
        assert forall|j: int| 0 <= j < c.links.len() implies !((#[trigger] c.links[j]).predicate
            == Predicate::InheritsFrom && c.links[j].subject == root.name) by {
            if q(c.links[j]) {
                assert(inh.contains(c.links[j]));
            }
        }
        assert(plan =~= (plan_opening(root) + "layers:\n"@) + entries);
        lemma_prefix_extend(entries, plan_opening(root) + "layers:\n"@);
    } else {
        let o = inh[0].object;
        assert(q(inh[0]) && c.links.contains(inh[0]));
        let j0 = choose|j: int| 0 <= j < c.links.len() && c.links[j] == inh[0];
        assert(c.links[j0].predicate == Predicate::InheritsFrom && c.links[j0].subject == root.name
            && c.links[j0].object == o);
        assert forall|j: int|
            0 <= j < c.links.len() && (#[trigger] c.links[j]).predicate == Predicate::InheritsFrom
                && c.links[j].subject == root.name implies !seq_lt(c.links[j].object, o) by {
            assert(q(c.links[j]));
            assert(inh.contains(c.links[j]));
            let k = choose|k: int| 0 <= k < inh.len() && inh[k] == c.links[j];
            if k == 0 {
                lemma_seq_lt_irreflexive(o);
            } else {
                assert(!seq_lt(inh[k].object, inh[0].object));
            }
        }
        let pre = plan_opening(root) + "base: "@ + spec_image_ref(c, o) + "\n"@ + "layers:\n"@;
        assert(plan =~= pre + entries);
        lemma_prefix_extend(entries, pre);
    }
    lemma_entity_name_order();
    lemma_sorted_filter(c.entities, is_placed(), entity_name_lt());
    assert forall|i: int|
        0 <= i < c.entities.len() && (#[trigger] c.entities[i]).placement_layer is Some
            implies has_infix(plan, layer_line(c.entities[i].name, c.entities[i].placement_layer->0))
        by {
        let e = c.entities[i];
        assert((is_placed())(e));
        assert(spec_placed(c).contains(e));
        let k = choose|k: int| 0 <= k < spec_placed(c).len() && spec_placed(c)[k] == e;
        lemma_layer_entries_hold(spec_placed(c), k);
        let head = spec_plan_head(root) + spec_base_line(c, root) + "layers:\n"@;
        lemma_infix_extend(entries, layer_line(e.name, e.placement_layer->0), head, seq![]);
        assert(head + entries + seq![] =~= plan);
    }
}

// ---- bundle.yaml keeps each section entry whole ---------------------------------

/// The entry of `bundle.yaml` for an extension or component: its name, its
/// version line, and its placement layer line when it has one.
proof fn lemma_section_entries_hold(es: Seq<EntityView>, k: int)
    requires
        0 <= k < es.len(),
    ensures
        has_infix(spec_section_entries(es), spec_section_entry(es[k])),
    decreases es.len(),
{
    let rest = es.drop_last();
    let line = spec_section_entry(es.last());
    if k == es.len() - 1 {
        lemma_infix_self(line);
        lemma_infix_extend(line, line, spec_section_entries(rest), seq![]);
        assert(spec_section_entries(rest) + line + seq![] =~= spec_section_entries(es));
    } else {
        assert(es[k] == rest[k]);
        lemma_section_entries_hold(rest, k);
        lemma_infix_extend(spec_section_entries(rest), spec_section_entry(es[k]), seq![], line);
        assert(seq![] + spec_section_entries(rest) + line =~= spec_section_entries(es));
    }
}

/// `bundle.yaml` lists every extension and every component under its name,
/// with its version (`?` when it has none) on the next line; when it carries
/// a placement layer, the line after that is `    placement_layer: ` and the
/// layer, whatever the entity's type.
pub proof fn lemma_bundle_lists_sections(c: CompositionView, root: EntityView)
    ensures
        forall|i: int|
            0 <= i < c.entities.len() && ((#[trigger] c.entities[i]).entity_type
                == EntityType::DbExtension || c.entities[i].entity_type
                == EntityType::StaticArtifact) ==> has_infix(
                spec_bundle_yaml(c, root),
                "  "@ + c.entities[i].name + ":\n"@ + "    version: "@ + or_default(
                    c.entities[i].version,
                    "?"@,
                ) + "\n"@,
            ),
        forall|i: int|
            0 <= i < c.entities.len() && ((#[trigger] c.entities[i]).entity_type
                == EntityType::DbExtension || c.entities[i].entity_type
                == EntityType::StaticArtifact) && c.entities[i].placement_layer is Some
                ==> has_infix(
                spec_bundle_yaml(c, root),
                "  "@ + c.entities[i].name + ":\n"@ + "    version: "@ + or_default(
                    c.entities[i].version,
                    "?"@,
                ) + "\n"@ + "    placement_layer: "@ + c.entities[i].placement_layer->0 + "\n"@,
            ),
{
    lemma_entity_name_order();
    lemma_sorted_filter(c.entities, of_type(EntityType::DbExtension), entity_name_lt());
    lemma_sorted_filter(c.entities, of_type(EntityType::StaticArtifact), entity_name_lt());
    let y = spec_bundle_yaml(c, root);
    let hb = spec_bundle_head(root) + spec_base_line(c, root);
    let sx = spec_section(c, "extensions:\n"@, EntityType::DbExtension);
    let sc = spec_section(c, "components:\n"@, EntityType::StaticArtifact);
    let pr = spec_processes(c);
    assert forall|i: int|
        0 <= i < c.entities.len() && ((#[trigger] c.entities[i]).entity_type
            == EntityType::DbExtension || c.entities[i].entity_type == EntityType::StaticArtifact)
            implies has_infix(y, spec_section_entry(c.entities[i])) by {
        let e = c.entities[i];
        let kind = e.entity_type;
        let header = if kind == EntityType::DbExtension {
            "extensions:\n"@
        } else {
            "components:\n"@
        };
        let es = spec_entities_of(c, kind);
        assert((of_type(kind))(e));
        assert(es.contains(e));
        let k = choose|k: int| 0 <= k < es.len() && es[k] == e;
        lemma_section_entries_hold(es, k);
        let sec = spec_section(c, header, kind);
        assert(sec == header + spec_section_entries(es));
        lemma_infix_extend(spec_section_entries(es), spec_section_entry(e), header, seq![]);
        assert(header + spec_section_entries(es) + seq![] =~= sec);
        if kind == EntityType::DbExtension {
            lemma_infix_extend(sx, spec_section_entry(e), hb, sc + pr);
            assert(hb + sx + (sc + pr) =~= y);
        } else {
            lemma_infix_extend(sc, spec_section_entry(e), hb + sx, pr);
            assert(hb + sx + sc + pr =~= y);
        }
    }
    assert forall|i: int|
        0 <= i < c.entities.len() && ((#[trigger] c.entities[i]).entity_type
            == EntityType::DbExtension || c.entities[i].entity_type == EntityType::StaticArtifact)
            implies has_infix(
            y,
            "  "@ + c.entities[i].name + ":\n"@ + "    version: "@ + or_default(
                c.entities[i].version,
                "?"@,
            ) + "\n"@,
        ) by {
        let e = c.entities[i];
        let t = "  "@ + e.name + ":\n"@ + "    version: "@ + or_default(e.version, "?"@) + "\n"@;
        let rest = match e.placement_layer {
            Some(p) => "    placement_layer: "@ + p + "\n"@,
            None => seq![],
        };
        reveal_strlit(":\n    version: ");
        reveal_strlit(":\n");
        reveal_strlit("    version: ");
        assert(spec_section_entry(e) =~= t + rest);
        assert(has_infix(y, spec_section_entry(e)));
        let m = choose|m: int|
            0 <= m && m + spec_section_entry(e).len() <= y.len() && #[trigger] y.subrange(
                m,
                m + spec_section_entry(e).len(),
            ) == spec_section_entry(e);
        assert(y.subrange(m, m + t.len()) =~= t);
    }
    assert forall|i: int|
        0 <= i < c.entities.len() && ((#[trigger] c.entities[i]).entity_type
            == EntityType::DbExtension || c.entities[i].entity_type == EntityType::StaticArtifact)
            && c.entities[i].placement_layer is Some implies has_infix(
            y,
            "  "@ + c.entities[i].name + ":\n"@ + "    version: "@ + or_default(
                c.entities[i].version,
                "?"@,
            ) + "\n"@ + "    placement_layer: "@ + c.entities[i].placement_layer->0 + "\n"@,
        ) by {
        let e = c.entities[i];
        reveal_strlit(":\n    version: ");
        reveal_strlit(":\n");
        reveal_strlit("    version: ");
        assert(spec_section_entry(e) =~= "  "@ + e.name + ":\n"@ + "    version: "@ + or_default(
            e.version,
            "?"@,
        ) + "\n"@ + "    placement_layer: "@ + e.placement_layer->0 + "\n"@);
    }
}

// ---- the root and image references, over the entities and links ------------------

/// The root is the first fleet image that no `INHERITS_FROM` link names as
/// its object; every fleet image before it is some link's base. Without a
/// root, every fleet image is some link's base.
pub proof fn lemma_root_is_first_uninherited_fleet(c: CompositionView)
    ensures
        spec_root_fleet(c) matches Some(i) ==> {
            &&& 0 <= i < c.entities.len()
            &&& c.entities[i].entity_type == EntityType::FleetImage
            &&& forall|j: int|
                0 <= j < c.links.len() && (#[trigger] c.links[j]).predicate
                    == Predicate::InheritsFrom ==> c.links[j].object != c.entities[i].name
            &&& forall|k: int|
                0 <= k < i && (#[trigger] c.entities[k]).entity_type == EntityType::FleetImage
                    ==> exists|j: int|
                    0 <= j < c.links.len() && (#[trigger] c.links[j]).predicate
                        == Predicate::InheritsFrom && c.links[j].object == c.entities[k].name
        },
        spec_root_fleet(c) is None ==> forall|k: int|
            0 <= k < c.entities.len() && (#[trigger] c.entities[k]).entity_type
                == EntityType::FleetImage ==> exists|j: int|
                0 <= j < c.links.len() && (#[trigger] c.links[j]).predicate
                    == Predicate::InheritsFrom && c.links[j].object == c.entities[k].name,
{
    lemma_root_fleet(c);
    if spec_root_fleet(c) is Some {
        let i = spec_root_fleet(c)->0;
        assert forall|j: int|
            0 <= j < c.links.len() && (#[trigger] c.links[j]).predicate == Predicate::InheritsFrom
                implies c.links[j].object != c.entities[i].name by {
            if c.links[j].object == c.entities[i].name {
                assert(is_inherited(c, c.entities[i].name));
            }
        }
    }
}

/// The image reference of a name: for the first entity of that name, its
/// placement layer when it has one, else its name, `:` and its version
/// (`latest` when it has none); a name that no entity has is its own
/// reference.
pub proof fn lemma_image_ref_of_first_named(c: CompositionView, name: Seq<char>)
    ensures
        forall|i: int|
            0 <= i < c.entities.len() && (#[trigger] c.entities[i]).name == name && (forall|j: int|
                0 <= j < i ==> (#[trigger] c.entities[j]).name != name) ==> spec_image_ref(c, name)
                == match c.entities[i].placement_layer {
                Some(p) => p,
                None => name + ":"@ + match c.entities[i].version {
                    Some(v) => v,
                    None => "latest"@,
                },
            },
        (forall|i: int| 0 <= i < c.entities.len() ==> (#[trigger] c.entities[i]).name != name)
            ==> spec_image_ref(c, name) == name,
{
    let p = named(name);
    lemma_first_index_found(c.entities, p);
    assert forall|i: int|
        0 <= i < c.entities.len() && (#[trigger] c.entities[i]).name == name && (forall|j: int|
            0 <= j < i ==> (#[trigger] c.entities[j]).name != name) implies spec_image_ref(c, name)
            == match c.entities[i].placement_layer {
            Some(p) => p,
            None => name + ":"@ + match c.entities[i].version {
                Some(v) => v,
                None => "latest"@,
            },
        } by {
        assert(p(c.entities[i]));
        lemma_first_index(c.entities, p, i);
    }
    if forall|i: int| 0 <= i < c.entities.len() ==> (#[trigger] c.entities[i]).name != name {
        if spec_by_name(c, name) is Some {
            let i = spec_by_name(c, name)->0;
            assert(p(c.entities[i]));
        }
    }
}

// ---- every edge of the root shows in the Dockerfile -------------------------------

/// The text `key` maps to in link metadata, or `d` when it maps to no text.
pub open spec fn meta_text_or(m: Map<Seq<char>, MetaValueView>, key: Seq<char>, d: Seq<char>) -> Seq<
    char,
> {
    if m.dom().contains(key) {
        match m[key] {
            MetaValueView::Text(s) => s,
            _ => d,
        }
    } else {
        d
    }
}

/// A version as the headers print it: the version, or `?`.
pub open spec fn version_or_unknown(v: Option<Seq<char>>) -> Seq<char> {
    match v {
        Some(s) => s,
        None => "?"@,
    }
}

/// The texts `f` gives for each element, one after the other.
pub open spec fn chunks<T>(ls: Seq<T>, f: spec_fn(T) -> Seq<char>) -> Seq<char>
    decreases ls.len(),
{
    if ls.len() == 0 {
        seq![]
    } else {
        chunks(ls.drop_last(), f) + f(ls.last())
    }
}

proof fn lemma_chunk_holds<T>(ls: Seq<T>, f: spec_fn(T) -> Seq<char>, k: int)
    requires
        0 <= k < ls.len(),
    ensures
        has_infix(chunks(ls, f), f(ls[k])),
    decreases ls.len(),
{
    let rest = ls.drop_last();
    let last = f(ls.last());
    if k == ls.len() - 1 {
        lemma_infix_self(last);
        lemma_infix_extend(last, last, chunks(rest, f), seq![]);
        assert(chunks(rest, f) + last + seq![] =~= chunks(ls, f));
    } else {
        assert(ls[k] == rest[k]);
        lemma_chunk_holds(rest, f, k);
        lemma_infix_extend(chunks(rest, f), f(ls[k]), seq![], last);
        assert(seq![] + chunks(rest, f) + last =~= chunks(ls, f));
    }
}

proof fn lemma_build_lines_chunks(ls: Seq<LinkView>)
    ensures
        spec_build_lines(ls) == chunks(ls, |l: LinkView| spec_build_line(l)),
    decreases ls.len(),
{
    if ls.len() > 0 {
        lemma_build_lines_chunks(ls.drop_last());
    }
}

proof fn lemma_copy_lines_chunks(c: CompositionView, ls: Seq<LinkView>)
    ensures
        spec_copy_lines(c, ls) == chunks(ls, |l: LinkView| spec_copy_line(c, l)),
    decreases ls.len(),
{
    if ls.len() > 0 {
        lemma_copy_lines_chunks(c, ls.drop_last());
    }
}

proof fn lemma_longrun_lines_chunks(ls: Seq<LinkView>)
    ensures
        spec_longrun_lines(ls) == chunks(ls, |l: LinkView| "#   longrun: "@ + l.object + "\n"@),
    decreases ls.len(),
{
    if ls.len() > 0 {
        lemma_longrun_lines_chunks(ls.drop_last());
        assert(spec_longrun_lines(ls) =~= chunks(ls, |l: LinkView| "#   longrun: "@ + l.object + "\n"@));
    }
}

proof fn lemma_smoke_lines_chunks(ls: Seq<LinkView>)
    ensures
        spec_smoke_lines(ls) == chunks(ls, |l: LinkView| spec_smoke_line(l)),
    decreases ls.len(),
{
    if ls.len() > 0 {
        lemma_smoke_lines_chunks(ls.drop_last());
    }
}

/// Each link of `pred` from `subject` is one of its edges.
proof fn lemma_edge_listed(c: CompositionView, subject: Seq<char>, pred: Predicate, i: int)
    requires
        0 <= i < c.links.len(),
        c.links[i].predicate == pred,
        c.links[i].subject == subject,
    ensures
        spec_edges(c, subject, pred).contains(c.links[i]),
{
    lemma_link_object_order();
    lemma_sorted_filter(c.links, edge_of(subject, pred), link_object_lt());
    assert((edge_of(subject, pred))(c.links[i]));
}

/// The first edge of `pred` from `subject` goes to the least object that a
/// link of `pred` from `subject` has; there is a first edge exactly when
/// there is such a link.
proof fn lemma_first_edge_least(c: CompositionView, subject: Seq<char>, pred: Predicate)
    ensures
        spec_edges(c, subject, pred).len() > 0 <==> exists|j: int|
            0 <= j < c.links.len() && (#[trigger] c.links[j]).predicate == pred
                && c.links[j].subject == subject,
        spec_edges(c, subject, pred).len() > 0 ==> {
            let o = spec_edges(c, subject, pred)[0].object;
            &&& exists|j: int|
                0 <= j < c.links.len() && (#[trigger] c.links[j]).predicate == pred
                    && c.links[j].subject == subject && c.links[j].object == o
            &&& forall|j: int|
                0 <= j < c.links.len() && (#[trigger] c.links[j]).predicate == pred
                    && c.links[j].subject == subject ==> !seq_lt(c.links[j].object, o)
        },
{
    let e = spec_edges(c, subject, pred);
    let q = edge_of(subject, pred);
    lemma_link_object_order();
    lemma_sorted_filter(c.links, q, link_object_lt());
    lemma_edges_sorted(c, subject, pred);
    if exists|j: int|
        0 <= j < c.links.len() && (#[trigger] c.links[j]).predicate == pred
            && c.links[j].subject == subject {
        let j = choose|j: int|
            0 <= j < c.links.len() && (#[trigger] c.links[j]).predicate == pred
                && c.links[j].subject == subject;
        assert(q(c.links[j]));
        assert(e.contains(c.links[j]));
    }
    if e.len() > 0 {
        let o = e[0].object;
        assert(q(e[0]) && c.links.contains(e[0]));
        let j0 = choose|j: int| 0 <= j < c.links.len() && c.links[j] == e[0];
        assert(c.links[j0].predicate == pred && c.links[j0].subject == subject);
        assert forall|j: int|
            0 <= j < c.links.len() && (#[trigger] c.links[j]).predicate == pred
                && c.links[j].subject == subject implies !seq_lt(c.links[j].object, o) by {
            assert(q(c.links[j]));
            assert(e.contains(c.links[j]));
            let k = choose|k: int| 0 <= k < e.len() && e[k] == c.links[j];
            if k == 0 {
                lemma_seq_lt_irreflexive(o);
            } else {
                assert(!seq_lt(e[k].object, e[0].object));
            }
        }
    }
}

/// The opening lines of the Dockerfile.
pub open spec fn docker_opening(root: EntityView) -> Seq<char> {
    "# Generated by sporaxis — do not edit; edit the composition and re-compose."@ + "\n"@
        + "# bundle: "@ + root.name + " ("@ + version_or_unknown(root.version) + ")"@ + "\n"@
        + "\n"@
}

#[verifier::spinoff_prover]
proof fn lemma_dockerfile_opening(c: CompositionView, root: EntityView)
    ensures
        (forall|j: int|
            0 <= j < c.links.len() ==> !((#[trigger] c.links[j]).predicate == Predicate::InheritsFrom
                && c.links[j].subject == root.name)) ==> has_prefix(
            spec_dockerfile(c, root),
            docker_opening(root),
        ),
        (exists|j: int|
            0 <= j < c.links.len() && (#[trigger] c.links[j]).predicate == Predicate::InheritsFrom
                && c.links[j].subject == root.name) ==> exists|o: Seq<char>|
            (exists|j: int|
                0 <= j < c.links.len() && (#[trigger] c.links[j]).predicate
                    == Predicate::InheritsFrom && c.links[j].subject == root.name
                    && c.links[j].object == o) && (forall|j: int|
                0 <= j < c.links.len() && (#[trigger] c.links[j]).predicate
                    == Predicate::InheritsFrom && c.links[j].subject == root.name ==> !seq_lt(
                    c.links[j].object,
                    o,
                )) && has_prefix(
                spec_dockerfile(c, root),
                docker_opening(root) + "FROM "@ + spec_image_ref(c, o) + "\n"@ + "\n"@,
            ),
{
    let df = spec_dockerfile(c, root);
    let hd = spec_docker_head(root);
    let fr = spec_from_block(c, root);
    let bu = spec_builds_block(c, root);
    let cp = spec_copies_block(c, root);
    let lb = spec_labels(root);
    let sp = spec_supervision_block(c, root);
    assert(df == hd + fr + bu + cp + lb + sp);
    assert(hd =~= docker_opening(root));
    lemma_first_edge_least(c, root.name, Predicate::InheritsFrom);
    let inh = spec_edges(c, root.name, Predicate::InheritsFrom);
    if inh.len() == 0 {
        assert(df =~= hd + (fr + bu + cp + lb + sp));
        lemma_prefix_extend(fr + bu + cp + lb + sp, hd);
    } else {
        let o = inh[0].object;
        assert(fr =~= "FROM "@ + spec_image_ref(c, o) + "\n"@ + "\n"@);
        assert(df =~= (docker_opening(root) + "FROM "@ + spec_image_ref(c, o) + "\n"@ + "\n"@) + (bu + cp
            + lb + sp));
        lemma_prefix_extend(bu + cp + lb + sp, docker_opening(root) + "FROM "@ + spec_image_ref(c, o)
            + "\n"@ + "\n"@);
    }
}

proof fn lemma_dockerfile_build_lines(c: CompositionView, root: EntityView)
    ensures
        forall|i: int|
            0 <= i < c.links.len() && (#[trigger] c.links[i]).predicate == Predicate::Builds
                && c.links[i].subject == root.name ==> has_infix(
                spec_dockerfile(c, root),
                "# BUILDS "@ + c.links[i].object + " ("@ + meta_text_or(
                    c.links[i].meta,
                    "kind"@,
                    "build"@,
                ) + ")"@ + "\n"@ + "RUN sporaxis-build --"@ + meta_text_or(
                    c.links[i].meta,
                    "kind"@,
                    "build"@,
                ) + " "@ + meta_text_or(c.links[i].meta, "package"@, c.links[i].object)
                    + "   # → "@ + c.links[i].object + "\n"@,
            ),
{
    let df = spec_dockerfile(c, root);
    let hd = spec_docker_head(root);
    let fr = spec_from_block(c, root);
    let bu = spec_builds_block(c, root);
    let cp = spec_copies_block(c, root);
    let lb = spec_labels(root);
    let sp = spec_supervision_block(c, root);
    assert(df == hd + fr + bu + cp + lb + sp);
    let builds = spec_edges(c, root.name, Predicate::Builds);
    let fb = |l: LinkView| spec_build_line(l);
    lemma_build_lines_chunks(builds);
    assert forall|i: int|
        0 <= i < c.links.len() && (#[trigger] c.links[i]).predicate == Predicate::Builds
            && c.links[i].subject == root.name implies has_infix(
            df,
            "# BUILDS "@ + c.links[i].object + " ("@ + meta_text_or(
                c.links[i].meta,
                "kind"@,
                "build"@,
            ) + ")"@ + "\n"@ + "RUN sporaxis-build --"@ + meta_text_or(c.links[i].meta, "kind"@, "build"@)
                + " "@ + meta_text_or(c.links[i].meta, "package"@, c.links[i].object) + "   # → "@
                + c.links[i].object + "\n"@,
        ) by {
        let l = c.links[i];
        lemma_edge_listed(c, root.name, Predicate::Builds, i);
        let k = choose|k: int| 0 <= k < builds.len() && builds[k] == l;
        lemma_chunk_holds(builds, fb, k);
        assert(bu == spec_build_lines(builds) + "\n"@);
        lemma_infix_extend(spec_build_lines(builds), fb(l), hd + fr, "\n"@ + cp + lb + sp);
        assert(hd + fr + spec_build_lines(builds) + ("\n"@ + cp + lb + sp) =~= df);
        assert(fb(l) =~= "# BUILDS "@ + l.object + " ("@ + meta_text_or(l.meta, "kind"@, "build"@)
            + ")"@ + "\n"@ + "RUN sporaxis-build --"@ + meta_text_or(l.meta, "kind"@, "build"@) + " "@
            + meta_text_or(l.meta, "package"@, l.object) + "   # → "@ + l.object + "\n"@);
    }
}

proof fn lemma_dockerfile_copy_lines(c: CompositionView, root: EntityView)
    ensures
        forall|i: int|
            0 <= i < c.links.len() && (#[trigger] c.links[i]).predicate == Predicate::CopiesFrom
                && c.links[i].subject == root.name ==> has_infix(
                spec_dockerfile(c, root),
                "COPY --from="@ + spec_image_ref(c, c.links[i].object) + " "@ + (if spec_meta_paths(
                    c.links[i].meta,
                ).len() == 0 {
                    "/"@
                } else {
                    join(spec_meta_paths(c.links[i].meta), " "@)
                }) + " "@ + meta_text_or(c.links[i].meta, "mount_at"@, "/"@) + "\n"@,
            ),
{
    let df = spec_dockerfile(c, root);
    let hd = spec_docker_head(root);
    let fr = spec_from_block(c, root);
    let bu = spec_builds_block(c, root);
    let cp = spec_copies_block(c, root);
    let lb = spec_labels(root);
    let sp = spec_supervision_block(c, root);
    assert(df == hd + fr + bu + cp + lb + sp);
    let copies = spec_edges(c, root.name, Predicate::CopiesFrom);
    let fc = |l: LinkView| spec_copy_line(c, l);
    lemma_copy_lines_chunks(c, copies);
    assert forall|i: int|
        0 <= i < c.links.len() && (#[trigger] c.links[i]).predicate == Predicate::CopiesFrom
            && c.links[i].subject == root.name implies has_infix(
            df,
            "COPY --from="@ + spec_image_ref(c, c.links[i].object) + " "@ + (if spec_meta_paths(
                c.links[i].meta,
            ).len() == 0 {
                "/"@
            } else {
                join(spec_meta_paths(c.links[i].meta), " "@)
            }) + " "@ + meta_text_or(c.links[i].meta, "mount_at"@, "/"@) + "\n"@,
        ) by {
        let l = c.links[i];
        lemma_edge_listed(c, root.name, Predicate::CopiesFrom, i);
        let k = choose|k: int| 0 <= k < copies.len() && copies[k] == l;
        lemma_chunk_holds(copies, fc, k);
        lemma_infix_extend(spec_copy_lines(c, copies), fc(l), hd + fr + bu, "\n"@ + lb + sp);
        assert(hd + fr + bu + spec_copy_lines(c, copies) + ("\n"@ + lb + sp) =~= df);
    }
}

proof fn lemma_dockerfile_longrun_lines(c: CompositionView, root: EntityView)
    ensures
        forall|i: int|
            0 <= i < c.links.len() && (#[trigger] c.links[i]).predicate == Predicate::Supervises
                && c.links[i].subject == root.name ==> has_infix(
                spec_dockerfile(c, root),
                "#   longrun: "@ + c.links[i].object + "\n"@,
            ),
{
    let df = spec_dockerfile(c, root);
    let hd = spec_docker_head(root);
    let fr = spec_from_block(c, root);
    let bu = spec_builds_block(c, root);
    let cp = spec_copies_block(c, root);
    let lb = spec_labels(root);
    let sp = spec_supervision_block(c, root);
    assert(df == hd + fr + bu + cp + lb + sp);
    let sup = spec_edges(c, root.name, Predicate::Supervises);
    let fs = |l: LinkView| "#   longrun: "@ + l.object + "\n"@;
    lemma_longrun_lines_chunks(sup);
    assert forall|i: int|
        0 <= i < c.links.len() && (#[trigger] c.links[i]).predicate == Predicate::Supervises
            && c.links[i].subject == root.name implies has_infix(
            df,
            "#   longrun: "@ + c.links[i].object + "\n"@,
        ) by {
        let l = c.links[i];
        lemma_edge_listed(c, root.name, Predicate::Supervises, i);
        let k = choose|k: int| 0 <= k < sup.len() && sup[k] == l;
        lemma_chunk_holds(sup, fs, k);
        let s3 = "\n"@ + "# s6 service tree (SUPERVISES) — see out/s6-services/"@ + "\n"@
            + "COPY s6-services/ /etc/s6-overlay/s6-rc.d/"@ + "\n"@;
        assert(sp == s3 + spec_longrun_lines(sup));
        lemma_infix_extend(spec_longrun_lines(sup), fs(l), hd + fr + bu + cp + lb + s3, seq![]);
        assert(hd + fr + bu + cp + lb + s3 + spec_longrun_lines(sup) + seq![] =~= df);
    }
}

/// The Dockerfile opens with its header; when the root inherits, `FROM` and
/// the image reference of the least object it inherits from follow at once.
/// Every `BUILDS` edge of the root has its comment and `RUN` line, with the
/// link's `kind` (default `build`) and `package` (default: the object); every
/// `COPIES_FROM` edge its `COPY --from=` line, from the object's image
/// reference, the listed paths (or `/`) to `mount_at` (or `/`); every
/// `SUPERVISES` edge its `longrun` line.
pub proof fn lemma_dockerfile_shows_edges(c: CompositionView, root: EntityView)
    ensures
        (forall|j: int|
            0 <= j < c.links.len() ==> !((#[trigger] c.links[j]).predicate == Predicate::InheritsFrom
                && c.links[j].subject == root.name)) ==> has_prefix(
            spec_dockerfile(c, root),
            docker_opening(root),
        ),
        (exists|j: int|
            0 <= j < c.links.len() && (#[trigger] c.links[j]).predicate == Predicate::InheritsFrom
                && c.links[j].subject == root.name) ==> exists|o: Seq<char>|
            (exists|j: int|
                0 <= j < c.links.len() && (#[trigger] c.links[j]).predicate
                    == Predicate::InheritsFrom && c.links[j].subject == root.name
                    && c.links[j].object == o) && (forall|j: int|
                0 <= j < c.links.len() && (#[trigger] c.links[j]).predicate
                    == Predicate::InheritsFrom && c.links[j].subject == root.name ==> !seq_lt(
                    c.links[j].object,
                    o,
                )) && has_prefix(
                spec_dockerfile(c, root),
                docker_opening(root) + "FROM "@ + spec_image_ref(c, o) + "\n"@ + "\n"@,
            ),
        forall|i: int|
            0 <= i < c.links.len() && (#[trigger] c.links[i]).predicate == Predicate::Builds
                && c.links[i].subject == root.name ==> has_infix(
                spec_dockerfile(c, root),
                "# BUILDS "@ + c.links[i].object + " ("@ + meta_text_or(
                    c.links[i].meta,
                    "kind"@,
                    "build"@,
                ) + ")"@ + "\n"@ + "RUN sporaxis-build --"@ + meta_text_or(
                    c.links[i].meta,
                    "kind"@,
                    "build"@,
                ) + " "@ + meta_text_or(c.links[i].meta, "package"@, c.links[i].object)
                    + "   # → "@ + c.links[i].object + "\n"@,
            ),
        forall|i: int|
            0 <= i < c.links.len() && (#[trigger] c.links[i]).predicate == Predicate::CopiesFrom
                && c.links[i].subject == root.name ==> has_infix(
                spec_dockerfile(c, root),
                "COPY --from="@ + spec_image_ref(c, c.links[i].object) + " "@ + (if spec_meta_paths(
                    c.links[i].meta,
                ).len() == 0 {
                    "/"@
                } else {
                    join(spec_meta_paths(c.links[i].meta), " "@)
                }) + " "@ + meta_text_or(c.links[i].meta, "mount_at"@, "/"@) + "\n"@,
            ),
        forall|i: int|
            0 <= i < c.links.len() && (#[trigger] c.links[i]).predicate == Predicate::Supervises
                && c.links[i].subject == root.name ==> has_infix(
                spec_dockerfile(c, root),
                "#   longrun: "@ + c.links[i].object + "\n"@,
            ),
{
    lemma_dockerfile_opening(c, root);
    lemma_dockerfile_build_lines(c, root);
    lemma_dockerfile_copy_lines(c, root);
    lemma_dockerfile_longrun_lines(c, root);
}

// ---- the s6 tree and the smoke script, edge by edge ------------------------------------

/// Each supervised process's `run` script is the execline header, then the
/// link's `run` (default: the process), then a newline.
pub proof fn lemma_s6_run_scripts(ls: Seq<LinkView>)
    ensures
        spec_s6_files(ls).len() == 2 * ls.len(),
        forall|i: int|
            0 <= i < ls.len() ==> spec_s6_files(ls)[2 * i + 1] == ("s6-services/"@
                + (#[trigger] ls[i]).object + "/run"@, "#!/command/execlineb -P\n"@ + meta_text_or(
                ls[i].meta,
                "run"@,
                ls[i].object,
            ) + "\n"@),
    decreases ls.len(),
{
    lemma_s6_pairs(ls);
    if ls.len() > 0 {
        let rest = ls.drop_last();
        lemma_s6_run_scripts(rest);
        assert(spec_s6_files(ls) == spec_s6_files(rest) + spec_s6_pair(ls.last()));
        assert forall|i: int| 0 <= i < ls.len() implies spec_s6_files(ls)[2 * i + 1] == (
        "s6-services/"@ + (#[trigger] ls[i]).object + "/run"@, "#!/command/execlineb -P\n"@
            + meta_text_or(ls[i].meta, "run"@, ls[i].object) + "\n"@) by {
            if i < rest.len() {
                assert(ls[i] == rest[i]);
                assert(spec_s6_files(ls)[2 * i + 1] == spec_s6_files(rest)[2 * i + 1]);
            } else {
                assert(spec_s6_files(ls)[2 * i + 1] == spec_s6_pair(ls.last())[1]);
            }
        }
    }
}

/// The smoke script opens with its shell header, and every `SMOKES_BY` edge
/// of the graph has its comment and its `echo` line.
pub proof fn lemma_smoke_shows_every_edge(c: CompositionView)
    ensures
        has_prefix(
            spec_smoke(c),
            "#!/bin/sh\n# Generated by sporaxis — smoke assertions from SMOKES_BY edges.\nset -eu\n\n"@,
        ),
        forall|i: int|
            0 <= i < c.links.len() && (#[trigger] c.links[i]).predicate == Predicate::SmokesBy
                ==> has_infix(
                spec_smoke(c),
                "# "@ + c.links[i].subject + " SMOKES_BY "@ + c.links[i].object + "\n"@
                    + "echo 'smoke: "@ + c.links[i].subject + " / "@ + c.links[i].object + "'\n"@,
            ),
{
    let head = "#!/bin/sh\n"@ + "# Generated by sporaxis — smoke assertions from SMOKES_BY edges.\n"@
        + "set -eu\n\n"@;
    reveal_strlit("#!/bin/sh\n");
    reveal_strlit("# Generated by sporaxis — smoke assertions from SMOKES_BY edges.\n");
    reveal_strlit("set -eu\n\n");
    reveal_strlit(
        "#!/bin/sh\n# Generated by sporaxis — smoke assertions from SMOKES_BY edges.\nset -eu\n\n",
    );
    assert(head =~= "#!/bin/sh\n# Generated by sporaxis — smoke assertions from SMOKES_BY edges.\nset -eu\n\n"@);
    let ls = spec_smokes(c);
    let body = spec_smoke_lines(ls);
    assert(spec_smoke(c) == head + body);
    lemma_prefix_extend(body, head);
    lemma_smoke_lines_chunks(ls);
    lemma_link_subject_object_order();
    lemma_sorted_filter(c.links, has_predicate(Predicate::SmokesBy), link_subject_object_lt());
    let f = |l: LinkView| spec_smoke_line(l);
    assert forall|i: int|
        0 <= i < c.links.len() && (#[trigger] c.links[i]).predicate == Predicate::SmokesBy
            implies has_infix(
            spec_smoke(c),
            "# "@ + c.links[i].subject + " SMOKES_BY "@ + c.links[i].object + "\n"@ + "echo 'smoke: "@
                + c.links[i].subject + " / "@ + c.links[i].object + "'\n"@,
        ) by {
        let l = c.links[i];
        assert((has_predicate(Predicate::SmokesBy))(l));
        assert(ls.contains(l));
        let k = choose|k: int| 0 <= k < ls.len() && ls[k] == l;
        lemma_chunk_holds(ls, f, k);
        lemma_infix_extend(body, f(l), head, seq![]);
        assert(head + body + seq![] =~= spec_smoke(c));
    }
}

// ---- the head of bundle.yaml and its processes ----------------------------------

/// `bundle.yaml` opens with the root's name and version, then, when the root
/// inherits, `base: ` and the image reference of the least object it inherits
/// from; every process of the graph is listed as `  - name`.
pub proof fn lemma_bundle_head_and_processes(c: CompositionView, root: EntityView)
    ensures
        has_prefix(
            spec_bundle_yaml(c, root),
            "# Generated by sporaxis — the layer bill of materials.\n"@ + "name: "@ + root.name
                + "\n"@ + "version: "@ + version_or_unknown(root.version) + "\n"@,
        ),
        (exists|j: int|
            0 <= j < c.links.len() && (#[trigger] c.links[j]).predicate == Predicate::InheritsFrom
                && c.links[j].subject == root.name) ==> exists|o: Seq<char>|
            (exists|j: int|
                0 <= j < c.links.len() && (#[trigger] c.links[j]).predicate
                    == Predicate::InheritsFrom && c.links[j].subject == root.name
                    && c.links[j].object == o) && (forall|j: int|
                0 <= j < c.links.len() && (#[trigger] c.links[j]).predicate
                    == Predicate::InheritsFrom && c.links[j].subject == root.name ==> !seq_lt(
                    c.links[j].object,
                    o,
                )) && has_prefix(
                spec_bundle_yaml(c, root),
                "# Generated by sporaxis — the layer bill of materials.\n"@ + "name: "@ + root.name
                    + "\n"@ + "version: "@ + version_or_unknown(root.version) + "\n"@ + "base: "@
                    + spec_image_ref(c, o) + "\n"@,
            ),
        forall|i: int|
            0 <= i < c.entities.len() && (#[trigger] c.entities[i]).entity_type
                == EntityType::Process ==> has_infix(
                spec_bundle_yaml(c, root),
                "  - "@ + c.entities[i].name + "\n"@,
            ),
{
    let y = spec_bundle_yaml(c, root);
    let hd = spec_bundle_head(root);
    let bl = spec_base_line(c, root);
    let sx = spec_section(c, "extensions:\n"@, EntityType::DbExtension);
    let sc = spec_section(c, "components:\n"@, EntityType::StaticArtifact);
    let pr = spec_processes(c);
    assert(y == hd + bl + sx + sc + pr);
    assert(y =~= hd + (bl + sx + sc + pr));
    lemma_prefix_extend(bl + sx + sc + pr, hd);
    lemma_first_edge_least(c, root.name, Predicate::InheritsFrom);
    let inh = spec_edges(c, root.name, Predicate::InheritsFrom);
    if inh.len() > 0 {
        let o = inh[0].object;
        assert(y =~= (hd + "base: "@ + spec_image_ref(c, o) + "\n"@) + (sx + sc + pr));
        lemma_prefix_extend(sx + sc + pr, hd + "base: "@ + spec_image_ref(c, o) + "\n"@);
    }
    lemma_entity_name_order();
    lemma_sorted_filter(c.entities, of_type(EntityType::Process), entity_name_lt());
    let es = spec_entities_of(c, EntityType::Process);
    assert forall|i: int|
        0 <= i < c.entities.len() && (#[trigger] c.entities[i]).entity_type == EntityType::Process
            implies has_infix(y, "  - "@ + c.entities[i].name + "\n"@) by {
        let e = c.entities[i];
        assert((of_type(EntityType::Process))(e));
        assert(es.contains(e));
        let k = choose|k: int| 0 <= k < es.len() && es[k] == e;
        lemma_process_entries_hold(es, k);
        assert(pr == "processes:\n"@ + spec_process_entries(es));
        lemma_infix_extend(spec_process_entries(es), "  - "@ + e.name + "\n"@, hd + bl + sx + sc
            + "processes:\n"@, seq![]);
        assert(hd + bl + sx + sc + "processes:\n"@ + spec_process_entries(es) + seq![] =~= y);
    }
}

proof fn lemma_process_entries_hold(es: Seq<EntityView>, k: int)
    requires
        0 <= k < es.len(),
    ensures
        has_infix(spec_process_entries(es), "  - "@ + es[k].name + "\n"@),
    decreases es.len(),
{
    let rest = es.drop_last();
    let line = "  - "@ + es.last().name + "\n"@;
    assert(spec_process_entries(es) =~= spec_process_entries(rest) + line);
    if k == es.len() - 1 {
        lemma_infix_self(line);
        lemma_infix_extend(line, line, spec_process_entries(rest), seq![]);
        assert(spec_process_entries(rest) + line + seq![] =~= spec_process_entries(es));
    } else {
        assert(es[k] == rest[k]);
        lemma_process_entries_hold(rest, k);
        lemma_infix_extend(spec_process_entries(rest), "  - "@ + es[k].name + "\n"@, seq![], line);
        assert(seq![] + spec_process_entries(rest) + line =~= spec_process_entries(es));
    }
}

// ---- link metadata, as read ------------------------------------------------------

/// A key of link metadata reads as text exactly when it maps to text, and
/// then as that text.
pub proof fn lemma_meta_str_reads_text(m: Map<Seq<char>, MetaValueView>, key: Seq<char>)
    ensures
        spec_meta_str(m, key) is Some <==> m.dom().contains(key) && m[key] is Text,
        spec_meta_str(m, key) matches Some(s) ==> m[key] == MetaValueView::Text(s),
        or_default(spec_meta_str(m, key), seq![]) == meta_text_or(m, key, seq![]),
{
}

/// The `paths` of link metadata: a list gives its text items in order, a
/// text gives itself, anything else (or no `paths`) gives none.
pub proof fn lemma_meta_paths_reads(m: Map<Seq<char>, MetaValueView>)
    ensures
        !m.dom().contains("paths"@) ==> spec_meta_paths(m).len() == 0,
        m.dom().contains("paths"@) ==> match m["paths"@] {
            MetaValueView::Text(s) => spec_meta_paths(m) == seq![s],
            MetaValueView::List(items) => spec_meta_paths(m) == items.filter_map(
                |o: Option<Seq<char>>| o,
            ),
            MetaValueView::Other => spec_meta_paths(m).len() == 0,
        },
{
    if m.dom().contains("paths"@) {
        match m["paths"@] {
            MetaValueView::List(items) => {
                assert(keep_text() == (|o: Option<Seq<char>>| o));
            },
            _ => {},
        }
    }
}

// ---- the layer plan and the smoke script, whole --------------------------------------

proof fn lemma_layer_entries_chunks(es: Seq<EntityView>)
    ensures
        spec_layer_entries(es) == chunks(
            es,
            |e: EntityView|
                "  - "@ + e.name + " -> "@ + match e.placement_layer {
                    Some(p) => p,
                    None => seq![],
                } + "\n"@,
        ),
    decreases es.len(),
{
    if es.len() > 0 {
        lemma_layer_entries_chunks(es.drop_last());
        assert(spec_layer_entries(es) =~= chunks(
            es,
            |e: EntityView|
                "  - "@ + e.name + " -> "@ + match e.placement_layer {
                    Some(p) => p,
                    None => seq![],
                } + "\n"@,
        ));
    }
}

/// After `layers:` the plan lists each entity that carries a placement layer
/// once, as `  - name -> layer`, in order of name, and ends there.
pub proof fn lemma_plan_layers_in_name_order(c: CompositionView, root: EntityView)
    ensures
        exists|ls: Seq<EntityView>|
            #![trigger ls.to_multiset()]
            {
                &&& ls.to_multiset() == c.entities.filter(
                    |e: EntityView| e.placement_layer is Some,
                ).to_multiset()
                &&& forall|i: int, j: int|
                    0 <= i < j < ls.len() ==> !seq_lt(
                        (#[trigger] ls[j]).name,
                        (#[trigger] ls[i]).name,
                    )
                &&& crate::ontology::has_suffix(
                    spec_manifest_plan(c, root),
                    "layers:\n"@ + chunks(
                        ls,
                        |e: EntityView|
                            "  - "@ + e.name + " -> "@ + match e.placement_layer {
                                Some(p) => p,
                                None => seq![],
                            } + "\n"@,
                    ),
                )
            },
{
    let ls = spec_placed(c);
    lemma_entity_name_order();
    lemma_sort_by(c.entities.filter(is_placed()), entity_name_lt());
    assert(is_placed() =~= (|e: EntityView| e.placement_layer is Some));
    lemma_layer_entries_chunks(ls);
    let tail = "layers:\n"@ + spec_layer_entries(ls);
    let plan = spec_manifest_plan(c, root);
    let head = spec_plan_head(root) + spec_base_line(c, root);
    assert(plan =~= head + tail);
    assert(plan.subrange(plan.len() - tail.len(), plan.len() as int) =~= tail);
    assert forall|i: int, j: int| 0 <= i < j < ls.len() implies !seq_lt(
        (#[trigger] ls[j]).name,
        (#[trigger] ls[i]).name,
    ) by {
        assert(!(entity_name_lt())(ls[j], ls[i]));
    }
}

proof fn lemma_smoke_lines_inline(ls: Seq<LinkView>)
    ensures
        spec_smoke_lines(ls) == chunks(
            ls,
            |l: LinkView|
                "# "@ + l.subject + " SMOKES_BY "@ + l.object + "\n"@ + "echo 'smoke: "@ + l.subject
                    + " / "@ + l.object + "'\n"@,
        ),
    decreases ls.len(),
{
    if ls.len() > 0 {
        lemma_smoke_lines_inline(ls.drop_last());
    }
}

/// The smoke script is its shell header, then, for each `SMOKES_BY` edge of
/// the graph once, a comment and an `echo` line, the edges in order of
/// subject and then object; nothing else.
pub proof fn lemma_smoke_script_whole(c: CompositionView)
    ensures
        exists|ls: Seq<LinkView>|
            #![trigger ls.to_multiset()]
            {
                &&& ls.to_multiset() == c.links.filter(
                    |l: LinkView| l.predicate == Predicate::SmokesBy,
                ).to_multiset()
                &&& forall|i: int, j: int|
                    0 <= i < j < ls.len() ==> !(seq_lt(
                        (#[trigger] ls[j]).subject,
                        (#[trigger] ls[i]).subject,
                    ) || (ls[j].subject == ls[i].subject && seq_lt(ls[j].object, ls[i].object)))
                &&& spec_smoke(c)
                    == "#!/bin/sh\n"@ + "# Generated by sporaxis — smoke assertions from SMOKES_BY edges.\n"@
                    + "set -eu\n\n"@ + chunks(
                    ls,
                    |l: LinkView|
                        "# "@ + l.subject + " SMOKES_BY "@ + l.object + "\n"@ + "echo 'smoke: "@
                            + l.subject + " / "@ + l.object + "'\n"@,
                )
            },
{
    let ls = spec_smokes(c);
    lemma_link_subject_object_order();
    lemma_sort_by(c.links.filter(has_predicate(Predicate::SmokesBy)), link_subject_object_lt());
    assert(has_predicate(Predicate::SmokesBy) =~= (|l: LinkView| l.predicate == Predicate::SmokesBy));
    lemma_smoke_lines_inline(ls);
    assert forall|i: int, j: int| 0 <= i < j < ls.len() implies !(seq_lt(
        (#[trigger] ls[j]).subject,
        (#[trigger] ls[i]).subject,
    ) || (ls[j].subject == ls[i].subject && seq_lt(ls[j].object, ls[i].object))) by {
        assert(!(link_subject_object_lt())(ls[j], ls[i]));
    }
}

// ---- the Dockerfile and bundle.yaml, whole ---------------------------------------------

/// `ls` is the links of `pred` from `subject`, each once, in order of object.
pub open spec fn edges_in_object_order(
    c: CompositionView,
    subject: Seq<char>,
    pred: Predicate,
    ls: Seq<LinkView>,
) -> bool {
    &&& ls.to_multiset() == c.links.filter(
        |l: LinkView| l.predicate == pred && l.subject == subject,
    ).to_multiset()
    &&& forall|i: int, j: int|
        0 <= i < j < ls.len() ==> !seq_lt((#[trigger] ls[j]).object, (#[trigger] ls[i]).object)
}

/// `es` is the entities of type `kind`, each once, in order of name.
pub open spec fn entities_in_name_order(c: CompositionView, kind: EntityType, es: Seq<EntityView>) -> bool {
    &&& es.to_multiset() == c.entities.filter(|e: EntityView| e.entity_type == kind).to_multiset()
    &&& forall|i: int, j: int|
        0 <= i < j < es.len() ==> !seq_lt((#[trigger] es[j]).name, (#[trigger] es[i]).name)
}

proof fn lemma_edges_in_object_order(c: CompositionView, subject: Seq<char>, pred: Predicate)
    ensures
        edges_in_object_order(c, subject, pred, spec_edges(c, subject, pred)),
{
    lemma_edges_sorted(c, subject, pred);
    assert(edge_of(subject, pred) =~= (|l: LinkView| l.predicate == pred && l.subject == subject));
}

proof fn lemma_entities_in_name_order(c: CompositionView, kind: EntityType)
    ensures
        entities_in_name_order(c, kind, spec_entities_of(c, kind)),
{
    let es = spec_entities_of(c, kind);
    lemma_entity_name_order();
    lemma_sort_by(c.entities.filter(of_type(kind)), entity_name_lt());
    assert(of_type(kind) =~= (|e: EntityView| e.entity_type == kind));
    assert forall|i: int, j: int| 0 <= i < j < es.len() implies !seq_lt(
        (#[trigger] es[j]).name,
        (#[trigger] es[i]).name,
    ) by {
        assert(!(entity_name_lt())(es[j], es[i]));
    }
}

/// The two lines of a `BUILDS` edge.
pub open spec fn build_text(l: LinkView) -> Seq<char> {
    "# BUILDS "@ + l.object + " ("@ + meta_text_or(l.meta, "kind"@, "build"@) + ")"@ + "\n"@
        + "RUN sporaxis-build --"@ + meta_text_or(l.meta, "kind"@, "build"@) + " "@ + meta_text_or(
        l.meta,
        "package"@,
        l.object,
    ) + "   # → "@ + l.object + "\n"@
}

/// The line of a `COPIES_FROM` edge.
pub open spec fn copy_text_of(c: CompositionView, l: LinkView) -> Seq<char> {
    "COPY --from="@ + spec_image_ref(c, l.object) + " "@ + (if spec_meta_paths(l.meta).len() == 0 {
        "/"@
    } else {
        join(spec_meta_paths(l.meta), " "@)
    }) + " "@ + meta_text_or(l.meta, "mount_at"@, "/"@) + "\n"@
}

/// The `FROM` block: `FROM` the first base and a blank line, or nothing.
pub open spec fn from_text(c: CompositionView, is: Seq<LinkView>) -> Seq<char> {
    if is.len() > 0 {
        "FROM "@ + spec_image_ref(c, is[0].object) + "\n"@ + "\n"@
    } else {
        seq![]
    }
}

/// The builds block: the lines of each `BUILDS` edge and a blank line, or
/// nothing.
pub open spec fn builds_text(bs: Seq<LinkView>) -> Seq<char> {
    if bs.len() > 0 {
        chunks(bs, |l: LinkView| build_text(l)) + "\n"@
    } else {
        seq![]
    }
}

/// The label lines of the root.
pub open spec fn labels_text(root: EntityView) -> Seq<char> {
    "# I7 — labels derive only from the oci:FleetImage entity"@ + "\n"@
        + "LABEL org.opencontainers.image.title="@ + root.name + "\n"@
        + "LABEL org.opencontainers.image.version="@ + match root.version {
        Some(v) => v,
        None => "0"@,
    } + "\n"@
}

/// The s6 block: its comment, its `COPY` and a `longrun` line per
/// supervised process, or nothing.
pub open spec fn supervision_text(ss: Seq<LinkView>) -> Seq<char> {
    if ss.len() > 0 {
        "\n"@ + "# s6 service tree (SUPERVISES) — see out/s6-services/"@ + "\n"@
            + "COPY s6-services/ /etc/s6-overlay/s6-rc.d/"@ + "\n"@ + chunks(
            ss,
            |l: LinkView| "#   longrun: "@ + l.object + "\n"@,
        )
    } else {
        seq![]
    }
}

proof fn lemma_builds_text(c: CompositionView, root: EntityView)
    ensures
        spec_builds_block(c, root) == builds_text(spec_edges(c, root.name, Predicate::Builds)),
{
    let bs = spec_edges(c, root.name, Predicate::Builds);
    lemma_build_lines_chunks(bs);
    assert((|l: LinkView| spec_build_line(l)) =~= (|l: LinkView| build_text(l)));
}

proof fn lemma_copies_text(c: CompositionView, root: EntityView)
    ensures
        spec_copies_block(c, root) == chunks(
            spec_edges(c, root.name, Predicate::CopiesFrom),
            |l: LinkView| copy_text_of(c, l),
        ) + "\n"@,
{
    let cs = spec_edges(c, root.name, Predicate::CopiesFrom);
    lemma_copy_lines_chunks(c, cs);
    assert((|l: LinkView| spec_copy_line(c, l)) =~= (|l: LinkView| copy_text_of(c, l)));
}

proof fn lemma_supervision_text(c: CompositionView, root: EntityView)
    ensures
        spec_supervision_block(c, root) == supervision_text(
            spec_edges(c, root.name, Predicate::Supervises),
        ),
{
    lemma_longrun_lines_chunks(spec_edges(c, root.name, Predicate::Supervises));
}

/// The Dockerfile, whole: its opening; `FROM` the least base, when the root
/// inherits; the `BUILDS` lines by object and a blank line, when it builds;
/// the `COPY` lines by object and a blank line; the root's labels; and, when
/// it supervises, the s6 lines and a `longrun` line per process by object.
pub proof fn lemma_dockerfile_whole(c: CompositionView, root: EntityView)
    ensures
        exists|is: Seq<LinkView>, bs: Seq<LinkView>, cs: Seq<LinkView>, ss: Seq<LinkView>|
            #![trigger is.to_multiset(), bs.to_multiset(), cs.to_multiset(), ss.to_multiset()]
            {
                &&& edges_in_object_order(c, root.name, Predicate::InheritsFrom, is)
                &&& edges_in_object_order(c, root.name, Predicate::Builds, bs)
                &&& edges_in_object_order(c, root.name, Predicate::CopiesFrom, cs)
                &&& edges_in_object_order(c, root.name, Predicate::Supervises, ss)
                &&& spec_dockerfile(c, root) == docker_opening(root) + from_text(c, is) + builds_text(
                    bs,
                ) + chunks(cs, |l: LinkView| copy_text_of(c, l)) + "\n"@ + labels_text(root)
                    + supervision_text(ss)
            },
{
    let is = spec_edges(c, root.name, Predicate::InheritsFrom);
    let bs = spec_edges(c, root.name, Predicate::Builds);
    let cs = spec_edges(c, root.name, Predicate::CopiesFrom);
    let ss = spec_edges(c, root.name, Predicate::Supervises);
    lemma_edges_in_object_order(c, root.name, Predicate::InheritsFrom);
    lemma_edges_in_object_order(c, root.name, Predicate::Builds);
    lemma_edges_in_object_order(c, root.name, Predicate::CopiesFrom);
    lemma_edges_in_object_order(c, root.name, Predicate::Supervises);
    lemma_builds_text(c, root);
    lemma_copies_text(c, root);
    lemma_supervision_text(c, root);
    let cp = chunks(cs, |l: LinkView| copy_text_of(c, l));
    assert(spec_docker_head(root) =~= docker_opening(root));
    assert(spec_from_block(c, root) == from_text(c, is));
    assert(spec_labels(root) =~= labels_text(root));
    assert(spec_dockerfile(c, root) =~= docker_opening(root) + from_text(c, is) + builds_text(bs)
        + cp + "\n"@ + labels_text(root) + supervision_text(ss));
}

/// The entry of an extension or component in `bundle.yaml`.
pub open spec fn section_text(e: EntityView) -> Seq<char> {
    "  "@ + e.name + ":\n    version: "@ + version_or_unknown(e.version) + "\n"@
        + match e.placement_layer {
        Some(p) => "    placement_layer: "@ + p + "\n"@,
        None => seq![],
    }
}

proof fn lemma_section_entries_chunks(es: Seq<EntityView>)
    ensures
        spec_section_entries(es) == chunks(es, |e: EntityView| section_text(e)),
    decreases es.len(),
{
    if es.len() > 0 {
        lemma_section_entries_chunks(es.drop_last());
        assert(spec_section_entry(es.last()) =~= section_text(es.last()));
    }
}

proof fn lemma_process_entries_chunks(es: Seq<EntityView>)
    ensures
        spec_process_entries(es) == chunks(es, |e: EntityView| "  - "@ + e.name + "\n"@),
    decreases es.len(),
{
    if es.len() > 0 {
        lemma_process_entries_chunks(es.drop_last());
        assert(spec_process_entries(es) =~= chunks(es, |e: EntityView| "  - "@ + e.name + "\n"@));
    }
}

/// `bundle.yaml`, whole: name and version; `base:` and the least base, when
/// the root inherits; then `extensions:`, `components:` (each with its
/// entries in order of name) and `processes:` (each process as `  - name`,
/// in order of name), a heading only where its list is not empty.
pub proof fn lemma_bundle_yaml_whole(c: CompositionView, root: EntityView)
    ensures
        exists|is: Seq<LinkView>, xs: Seq<EntityView>, ks: Seq<EntityView>, ps: Seq<EntityView>|
            #![trigger is.to_multiset(), xs.to_multiset(), ks.to_multiset(), ps.to_multiset()]
            {
                &&& edges_in_object_order(c, root.name, Predicate::InheritsFrom, is)
                &&& entities_in_name_order(c, EntityType::DbExtension, xs)
                &&& entities_in_name_order(c, EntityType::StaticArtifact, ks)
                &&& entities_in_name_order(c, EntityType::Process, ps)
                &&& spec_bundle_yaml(c, root)
                    == "# Generated by sporaxis — the layer bill of materials.\n"@ + "name: "@
                    + root.name + "\n"@ + "version: "@ + version_or_unknown(root.version) + "\n"@
                    + (if is.len() > 0 {
                    "base: "@ + spec_image_ref(c, is[0].object) + "\n"@
                } else {
                    seq![]
                }) + (if xs.len() > 0 {
                    "extensions:\n"@ + chunks(xs, |e: EntityView| section_text(e))
                } else {
                    seq![]
                }) + (if ks.len() > 0 {
                    "components:\n"@ + chunks(ks, |e: EntityView| section_text(e))
                } else {
                    seq![]
                }) + (if ps.len() > 0 {
                    "processes:\n"@ + chunks(ps, |e: EntityView| "  - "@ + e.name + "\n"@)
                } else {
                    seq![]
                })
            },
{
    let is = spec_edges(c, root.name, Predicate::InheritsFrom);
    let xs = spec_entities_of(c, EntityType::DbExtension);
    let ks = spec_entities_of(c, EntityType::StaticArtifact);
    let ps = spec_entities_of(c, EntityType::Process);
    lemma_edges_in_object_order(c, root.name, Predicate::InheritsFrom);
    lemma_entities_in_name_order(c, EntityType::DbExtension);
    lemma_entities_in_name_order(c, EntityType::StaticArtifact);
    lemma_entities_in_name_order(c, EntityType::Process);
    lemma_section_entries_chunks(xs);
    lemma_section_entries_chunks(ks);
    lemma_process_entries_chunks(ps);
    assert(spec_bundle_head(root) =~= "# Generated by sporaxis — the layer bill of materials.\n"@
        + "name: "@ + root.name + "\n"@ + "version: "@ + version_or_unknown(root.version) + "\n"@);
}

} // verus!
