//! The closed-set composition ontology: five entity types, six predicates,
//! the entities and links of one bundle's composition graph, and the link
//! metadata that the emitters read.

use vstd::prelude::*;
use crate::error::LoadError;
use crate::search::{first_index, lemma_first_index, lemma_first_index_found};
use crate::text::str_eq;
use crate::ttl::{predicate_term, spec_predicate_term};

verus! {

/// The closed set of entity types.
#[derive(Clone, Copy, Debug, PartialEq, Eq, Structural)]
pub enum EntityType {
    /// A container image that is consumed but not published (`oci:UpstreamImage`).
    UpstreamImage,
    /// A container image that is published (`oci:FleetImage`).
    FleetImage,
    /// A binary, library or static asset (`bin:StaticArtifact`).
    StaticArtifact,
    /// A database extension (`ext:DBExtension`).
    DbExtension,
    /// A supervised runtime process (`svc:Process`).
    Process,
}

/// The closed set of predicates.
#[derive(Clone, Copy, Debug, PartialEq, Eq, Structural)]
pub enum Predicate {
    InheritsFrom,
    CopiesFrom,
    Builds,
    Supervises,
    ShimsFor,
    SmokesBy,
}

/// The abstract value of an optional string.
pub open spec fn opt_view(o: Option<String>) -> Option<Seq<char>> {
    match o {
        Some(s) => Some(s@),
        None => None,
    }
}

/// A composition entity.
#[derive(Debug)]
pub struct Entity {
    pub name: String,
    pub entity_type: EntityType,
    pub version: Option<String>,
    /// The placement-layer digest, set when the entity can be stacked
    /// without a build.
    pub placement_layer: Option<String>,
}

pub struct EntityView {
    pub name: Seq<char>,
    pub entity_type: EntityType,
    pub version: Option<Seq<char>>,
    pub placement_layer: Option<Seq<char>>,
}

impl View for Entity {
    type V = EntityView;

    open spec fn view(&self) -> EntityView {
        EntityView {
            name: self.name@,
            entity_type: self.entity_type,
            version: opt_view(self.version),
            placement_layer: opt_view(self.placement_layer),
        }
    }
}

/// A metadata value attached to a link: the parts of a YAML value that the
/// emitters read. A sequence keeps, for each item, its text when the item is
/// a string and `None` otherwise.
#[derive(Debug)]
pub enum MetaValue {
    Text(String),
    List(Vec<Option<String>>),
    Other,
}

pub enum MetaValueView {
    Text(Seq<char>),
    List(Seq<Option<Seq<char>>>),
    Other,
}

impl View for MetaValue {
    type V = MetaValueView;

    open spec fn view(&self) -> MetaValueView {
        match self {
            MetaValue::Text(s) => MetaValueView::Text(s@),
            MetaValue::List(items) => MetaValueView::List(
                items@.map_values(|o: Option<String>| opt_view(o)),
            ),
            MetaValue::Other => MetaValueView::Other,
        }
    }
}

/// A map from metadata keys to values, in which no key occurs twice.
#[derive(Debug)]
pub struct MetaMap {
    entries: Vec<(String, MetaValue)>,
}

impl MetaMap {
    #[verifier::type_invariant]
    spec fn keys_distinct(self) -> bool {
        forall|i: int, j: int|
            0 <= i < self.entries@.len() && 0 <= j < self.entries@.len() && i != j
                ==> #[trigger] self.entries@[i].0@ != #[trigger] self.entries@[j].0@
    }

    spec fn has_key_at(self, k: Seq<char>, i: int) -> bool {
        0 <= i < self.entries@.len() && self.entries@[i].0@ == k
    }

    /// The keys present and the value each maps to.
    pub closed spec fn view(self) -> Map<Seq<char>, MetaValueView> {
        Map::new(
            |k: Seq<char>| exists|i: int| self.has_key_at(k, i),
            |k: Seq<char>| self.entries@[choose|i: int| self.has_key_at(k, i)].1@,
        )
    }

    proof fn lemma_view_at(self, i: int)
        requires
            self.keys_distinct(),
            0 <= i < self.entries@.len(),
        ensures
            self.view().dom().contains(self.entries@[i].0@),
            self.view()[self.entries@[i].0@] == self.entries@[i].1@,
    {
        let k = self.entries@[i].0@;
        assert(self.has_key_at(k, i));
        let j = choose|j: int| self.has_key_at(k, j);
        assert(j == i);
    }

    /// An empty map.
    pub fn new() -> (m: MetaMap)
        ensures
            m.view() == Map::<Seq<char>, MetaValueView>::empty(),
    {
        let m = MetaMap { entries: Vec::new() };
        assert(m.view() =~= Map::<Seq<char>, MetaValueView>::empty());
        m
    }

    /// The position of `key` among the entries, if it is there.
    fn find(&self, key: &str) -> (r: Option<usize>)
        ensures
            match r {
                Some(i) => i < self.entries@.len() && self.entries@[i as int].0@ == key@,
                None => forall|j: int| 0 <= j < self.entries@.len() ==> self.entries@[j].0@ != key@,
            },
    {
        let n = self.entries.len();
        let mut i: usize = 0;
        while i < n
            invariant
                n == self.entries@.len(),
                i <= n,
                forall|j: int| 0 <= j < i ==> self.entries@[j].0@ != key@,
            decreases n - i,
        {
            if str_eq(self.entries[i].0.as_str(), key) {
                return Some(i);
            }
            i = i + 1;
        }
        None
    }

    /// The value that `key` maps to, if any.
    pub fn get(&self, key: &str) -> (r: Option<&MetaValue>)
        ensures
            match r {
                Some(v) => self.view().dom().contains(key@) && self.view()[key@] == v@,
                None => !self.view().dom().contains(key@),
            },
    {
        proof {
            use_type_invariant(self);
        }
        match self.find(key) {
            Some(i) => {
                proof {
                    self.lemma_view_at(i as int);
                }
                Some(&self.entries[i].1)
            },
            None => None,
        }
    }

    /// Maps `key` to `value`, replacing the value it had.
    pub fn insert(&mut self, key: String, value: MetaValue)
        ensures
            final(self).view() == old(self).view().insert(key@, value@),
    {
        proof {
            use_type_invariant(&*self);
        }
        let ghost old_map = self.view();
        let ghost old_entries = self.entries@;
        let found = self.find(key.as_str());
        let ghost kv = key@;
        let ghost vv = value@;
        let mut entries: Vec<(String, MetaValue)> = Vec::new();
        std::mem::swap(&mut entries, &mut self.entries);
        let ghost pos: int;
        match found {
            Some(i) => {
                entries.set(i, (key, value));
                proof {
                    pos = i as int;
                }
            },
            None => {
                entries.push((key, value));
                proof {
                    pos = old_entries.len() as int;
                }
            },
        }
        let ghost s = MetaMap { entries };
        assert(0 <= pos < entries@.len() && entries@[pos].0@ == kv && entries@[pos].1@ == vv);
        assert(forall|j: int| 0 <= j < entries@.len() && j != pos ==> entries@[j] == old_entries[j]);
        assert(forall|j: int| 0 <= j < old_entries.len() && j != pos ==> old_entries[j].0@ != kv);
        assert(s.keys_distinct());
        proof {
            assert forall|k: Seq<char>| #[trigger] s.view().dom().contains(k) == old_map.insert(
                kv,
                vv,
            ).dom().contains(k) by {
                if k == kv {
                    assert(s.has_key_at(k, pos));
                } else if old_map.dom().contains(k) {
                    let j = choose|j: int| old(self).has_key_at(k, j);
                    assert(s.has_key_at(k, j));
                } else if s.view().dom().contains(k) {
                    let j = choose|j: int| s.has_key_at(k, j);
                    assert(old(self).has_key_at(k, j));
                }
            }
            assert forall|k: Seq<char>| #[trigger] s.view().dom().contains(k) implies s.view()[k]
                == old_map.insert(kv, vv)[k] by {
                let j = choose|j: int| s.has_key_at(k, j);
                s.lemma_view_at(j);
                if k != kv {
                    old(self).lemma_view_at(j);
                }
            }
            assert(s.view() =~= old_map.insert(kv, vv));
        }
        self.entries = entries;
    }
}

impl Default for MetaMap {
    fn default() -> (m: MetaMap)
        ensures
            m.view() == Map::<Seq<char>, MetaValueView>::empty(),
    {
        MetaMap::new()
    }
}

/// The metadata a link carries besides its subject, predicate and object.
#[derive(Debug)]
pub struct LinkMeta {
    pub rest: MetaMap,
}

impl Default for LinkMeta {
    fn default() -> (m: LinkMeta)
        ensures
            m.rest.view() == Map::<Seq<char>, MetaValueView>::empty(),
    {
        LinkMeta { rest: MetaMap::new() }
    }
}

/// A directed predicate instance.
#[derive(Debug)]
pub struct Link {
    pub subject: String,
    pub predicate: Predicate,
    pub object: String,
    pub meta: LinkMeta,
}

pub struct LinkView {
    pub subject: Seq<char>,
    pub predicate: Predicate,
    pub object: Seq<char>,
    pub meta: Map<Seq<char>, MetaValueView>,
}

impl View for Link {
    type V = LinkView;

    open spec fn view(&self) -> LinkView {
        LinkView {
            subject: self.subject@,
            predicate: self.predicate,
            object: self.object@,
            meta: self.meta.rest.view(),
        }
    }
}

/// One bundle's composition graph.
#[derive(Debug)]
pub struct Composition {
    pub entities: Vec<Entity>,
    pub links: Vec<Link>,
}

pub struct CompositionView {
    pub entities: Seq<EntityView>,
    pub links: Seq<LinkView>,
}

impl View for Composition {
    type V = CompositionView;

    open spec fn view(&self) -> CompositionView {
        CompositionView {
            entities: self.entities@.map_values(|e: Entity| e@),
            links: self.links@.map_values(|l: Link| l@),
        }
    }
}

impl Default for Composition {
    fn default() -> (c: Composition)
        ensures
            c.entities@.len() == 0,
            c.links@.len() == 0,
    {
        Composition { entities: Vec::new(), links: Vec::new() }
    }
}

} // verus!

verus! {

/// `s` ends with `suffix`.
pub open spec fn has_suffix(s: Seq<char>, suffix: Seq<char>) -> bool {
    suffix.len() <= s.len() && s.subrange(s.len() - suffix.len(), s.len() as int) == suffix
}

/// A kernel file's path under `kernels/` names a `kernel.yaml`.
pub open spec fn kernel_path_ok(path: Seq<char>) -> bool {
    path == "kernel.yaml"@ || has_suffix(path, "/kernel.yaml"@)
}

/// The file name a link is declared under: `<subject>.<PREDICATE>.<object>.yaml`.
pub open spec fn link_file_name(l: LinkView) -> Seq<char> {
    l.subject + "."@ + spec_predicate_term(l.predicate) + "."@ + l.object + ".yaml"@
}

pub open spec fn misnamed_kernel() -> spec_fn((String, Entity)) -> bool {
    |k: (String, Entity)| !kernel_path_ok(k.0@)
}

pub open spec fn misnamed_link() -> spec_fn((String, Link)) -> bool {
    |l: (String, Link)| l.0@ != link_file_name(l.1@)
}

/// Whether `s` ends with `suffix`.
pub fn ends_with(s: &str, suffix: &str) -> (r: bool)
    ensures
        r == has_suffix(s@, suffix@),
{
    let n = s.unicode_len();
    let m = suffix.unicode_len();
    if m > n {
        return false;
    }
    let tail = s.substring_char(n - m, n);
    str_eq(tail, suffix)
}

fn link_name_ok(name: &String, l: &Link) -> (r: bool)
    ensures
        r == (name@ == link_file_name(l@)),
{
    let mut expected = l.subject.clone();
    expected.append(".");
    expected.append(predicate_term(l.predicate));
    expected.append(".");
    expected.append(l.object.as_str());
    expected.append(".yaml");
    assert(expected@ =~= link_file_name(l@));
    str_eq(name.as_str(), expected.as_str())
}

impl Composition {
    /// Assembles a composition from the files of its directory: each kernel
    /// with its path under `kernels/`, each link with its file name under
    /// `links/`. A kernel file must be a `kernel.yaml`, and a link file must be
    /// named after its link, `<subject>.<PREDICATE>.<object>.yaml`; the first
    /// misnamed kernel, else the first misnamed link, is refused. Otherwise the
    /// graph holds the kernels' entities and the links, in the order given.
    pub fn load(kernels: Vec<(String, Entity)>, links: Vec<(String, Link)>) -> (r: Result<
        Composition,
        LoadError,
    >)
        ensures
            r is Err <==> (exists|i: int|
                0 <= i < kernels@.len() && !kernel_path_ok((#[trigger] kernels@[i]).0@)) || (exists|
                j: int,
            |
                0 <= j < links@.len() && (#[trigger] links@[j]).0@ != link_file_name(
                    links@[j].1@,
                )),
            match first_index(kernels@, misnamed_kernel()) {
                Some(i) => r matches Err(LoadError::MisnamedKernel(p)) && p@ == kernels@[i].0@,
                None => match first_index(links@, misnamed_link()) {
                    Some(j) => r matches Err(LoadError::MisnamedLink(n)) && n@ == links@[j].0@,
                    None => r matches Ok(c) && c@.entities == kernels@.map_values(
                        |k: (String, Entity)| k.1@,
                    ) && c@.links == links@.map_values(|l: (String, Link)| l.1@),
                },
            },
    {
        proof {
            lemma_first_index_found(kernels@, misnamed_kernel());
            lemma_first_index_found(links@, misnamed_link());
        }
        let nk = kernels.len();
        let mut i: usize = 0;
        while i < nk
            invariant
                nk == kernels@.len(),
                i <= nk,
                forall|j: int| 0 <= j < i ==> !(misnamed_kernel())(#[trigger] kernels@[j]),
            decreases nk - i,
        {
            let path = kernels[i].0.as_str();
            if !(str_eq(path, "kernel.yaml") || ends_with(path, "/kernel.yaml")) {
                proof {
                    lemma_first_index(kernels@, misnamed_kernel(), i as int);
                }
                return Err(LoadError::MisnamedKernel(kernels[i].0.clone()));
            }
            i = i + 1;
        }
        proof {
            lemma_first_index(kernels@, misnamed_kernel(), nk as int);
        }
        let nl = links.len();
        let mut j: usize = 0;
        while j < nl
            invariant
                nl == links@.len(),
                j <= nl,
                first_index(kernels@, misnamed_kernel()) is None,
                forall|q: int| 0 <= q < j ==> !(misnamed_link())(#[trigger] links@[q]),
            decreases nl - j,
        {
            if !link_name_ok(&links[j].0, &links[j].1) {
                proof {
                    lemma_first_index(links@, misnamed_link(), j as int);
                }
                return Err(LoadError::MisnamedLink(links[j].0.clone()));
            }
            j = j + 1;
        }
        proof {
            lemma_first_index(links@, misnamed_link(), nl as int);
        }
        let ghost kv = kernels@.map_values(|k: (String, Entity)| k.1@);
        let ghost lv = links@.map_values(|l: (String, Link)| l.1@);
        let mut entities: Vec<Entity> = Vec::new();
        let mut ks = kernels;
        let mut n: usize = 0;
        while ks.len() > 0
            invariant
                n + ks@.len() == nk,
                kv.len() == nk,
                forall|q: int| 0 <= q < ks@.len() ==> kv[n + q] == (#[trigger] ks@[q]).1@,
                entities@.map_values(|e: Entity| e@) == kv.take(n as int),
            decreases ks@.len(),
        {
            let (_, e) = ks.remove(0);
            assert(kv[n as int] == e@);
            let ghost prev = entities@.map_values(|e: Entity| e@);
            entities.push(e);
            assert(entities@.map_values(|e: Entity| e@) =~= prev.push(e@));
            assert(kv.take(n + 1) =~= kv.take(n as int).push(kv[n as int]));
            n = n + 1;
        }
        assert(kv.take(n as int) =~= kv);
        let mut out_links: Vec<Link> = Vec::new();
        let mut ls = links;
        let mut m: usize = 0;
        while ls.len() > 0
            invariant
                m + ls@.len() == nl,
                lv.len() == nl,
                forall|q: int| 0 <= q < ls@.len() ==> lv[m + q] == (#[trigger] ls@[q]).1@,
                out_links@.map_values(|l: Link| l@) == lv.take(m as int),
            decreases ls@.len(),
        {
            let (_, l) = ls.remove(0);
            assert(lv[m as int] == l@);
            let ghost prev = out_links@.map_values(|l: Link| l@);
            out_links.push(l);
            assert(out_links@.map_values(|l: Link| l@) =~= prev.push(l@));
            assert(lv.take(m + 1) =~= lv.take(m as int).push(lv[m as int]));
            m = m + 1;
        }
        assert(lv.take(m as int) =~= lv);
        Ok(Composition { entities, links: out_links })
    }
}

/// The names `load` accepts: a kernel file is `kernel.yaml`, at the top of
/// `kernels/` or in a directory under it; a link file is its subject, its
/// predicate's term and its object, joined by dots, then `.yaml`.
pub proof fn lemma_accepted_file_names(path: Seq<char>, l: LinkView)
    ensures
        kernel_path_ok(path) <==> path == "kernel.yaml"@ || (path.len() >= 12 && path.subrange(
            path.len() - 12,
            path.len() as int,
        ) == "/kernel.yaml"@),
        link_file_name(l) == l.subject + "."@ + spec_predicate_term(l.predicate) + "."@ + l.object
            + ".yaml"@,
{
    reveal_strlit("/kernel.yaml");
    assert("/kernel.yaml"@.len() == 12);
}

} // verus!
