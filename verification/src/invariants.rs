//! Discipline as graph constraints. The assembler refuses to emit a bundle
//! that violates one of them:
//!
//! - I1  no `oci:UpstreamImage` is the subject of `BUILDS` (never compile upstream)
//! - I2  no `oci:UpstreamImage` is the subject of `SHIMS_FOR` (never patch upstream)
//! - I5  every `svc:Process` has a `SMOKES_BY`
//! - I6  no `COPIES_FROM` pulls a base that the subject already inherits

use vstd::prelude::*;
use crate::ontology::{Composition, CompositionView, EntityType, EntityView, LinkView, Predicate};
use crate::render::{by_name, spec_by_name};
use crate::ttl::{predicate_term, spec_predicate_term};

verus! {

/// The graph invariants that are enforced.
#[derive(Clone, Copy, Debug, PartialEq, Eq, Structural)]
pub enum InvariantCode {
    I1,
    I2,
    I5,
    I6,
}

/// A violated invariant: its code, the subject, and the predicate and object
/// of the offending edge where there is one.
#[derive(Debug)]
pub struct Violation {
    pub code: InvariantCode,
    pub subject: String,
    pub predicate: Option<Predicate>,
    pub object: Option<String>,
}

pub struct ViolationView {
    pub code: InvariantCode,
    pub subject: Seq<char>,
    pub predicate: Option<Predicate>,
    pub object: Option<Seq<char>>,
}

impl View for Violation {
    type V = ViolationView;

    open spec fn view(&self) -> ViolationView {
        ViolationView {
            code: self.code,
            subject: self.subject@,
            predicate: self.predicate,
            object: crate::ontology::opt_view(self.object),
        }
    }
}

pub open spec fn violation_views(v: Seq<Violation>) -> Seq<ViolationView> {
    v.map_values(|x: Violation| x@)
}

/// The entity that `name` names (the first of that name) is an upstream image.
pub open spec fn names_upstream(c: CompositionView, name: Seq<char>) -> bool {
    match spec_by_name(c, name) {
        Some(i) => c.entities[i].entity_type == EntityType::UpstreamImage,
        None => false,
    }
}

/// I1 (for `BUILDS`) and I2 (for `SHIMS_FOR`): an edge of `pred` whose subject
/// is an upstream image.
pub open spec fn upstream_subject(c: CompositionView, code: InvariantCode, pred: Predicate) -> spec_fn(
    LinkView,
) -> Option<ViolationView> {
    |l: LinkView|
        if l.predicate == pred && names_upstream(c, l.subject) {
            Some(
                ViolationView {
                    code: code,
                    subject: l.subject,
                    predicate: Some(pred),
                    object: Some(l.object),
                },
            )
        } else {
            None
        }
}

/// Some `SMOKES_BY` edge has `name` as its subject.
pub open spec fn has_smoke(c: CompositionView, name: Seq<char>) -> bool {
    exists|i: int|
        0 <= i < c.links.len() && (#[trigger] c.links[i]).predicate == Predicate::SmokesBy
            && c.links[i].subject == name
}

/// I5: a process without a `SMOKES_BY` edge.
pub open spec fn unsmoked_process(c: CompositionView) -> spec_fn(EntityView) -> Option<
    ViolationView,
> {
    |e: EntityView|
        if e.entity_type == EntityType::Process && !has_smoke(c, e.name) {
            Some(
                ViolationView {
                    code: InvariantCode::I5,
                    subject: e.name,
                    predicate: Some(Predicate::SmokesBy),
                    object: None,
                },
            )
        } else {
            None
        }
}

/// Some `INHERITS_FROM` edge goes from `subject` to `object`.
pub open spec fn inherits(c: CompositionView, subject: Seq<char>, object: Seq<char>) -> bool {
    exists|i: int|
        0 <= i < c.links.len() && (#[trigger] c.links[i]).predicate == Predicate::InheritsFrom
            && c.links[i].subject == subject && c.links[i].object == object
}

/// I6: a `COPIES_FROM` edge whose base the subject already inherits.
pub open spec fn duplicate_pull(c: CompositionView) -> spec_fn(LinkView) -> Option<ViolationView> {
    |l: LinkView|
        if l.predicate == Predicate::CopiesFrom && inherits(c, l.subject, l.object) {
            Some(
                ViolationView {
                    code: InvariantCode::I6,
                    subject: l.subject,
                    predicate: Some(Predicate::CopiesFrom),
                    object: Some(l.object),
                },
            )
        } else {
            None
        }
}

/// Every violation of the composition: those of I1, then I2, then I5, then
/// I6, each in the order of the links or entities.
pub open spec fn spec_violations(c: CompositionView) -> Seq<ViolationView> {
    c.links.filter_map(upstream_subject(c, InvariantCode::I1, Predicate::Builds))
        + c.links.filter_map(upstream_subject(c, InvariantCode::I2, Predicate::ShimsFor))
        + c.entities.filter_map(unsmoked_process(c)) + c.links.filter_map(duplicate_pull(c))
}

fn names_upstream_image(comp: &Composition, name: &str) -> (r: bool)
    ensures
        r == names_upstream(comp@, name@),
{
    match by_name(comp, name) {
        Some(e) => e.entity_type == EntityType::UpstreamImage,
        None => false,
    }
}

fn push_upstream_subjects(
    out: &mut Vec<Violation>,
    comp: &Composition,
    code: InvariantCode,
    pred: Predicate,
)
    ensures
        violation_views(final(out)@) == violation_views(old(out)@) + comp@.links.filter_map(
            upstream_subject(comp@, code, pred),
        ),
{
    let ghost f = upstream_subject(comp@, code, pred);
    let ghost ls = comp@.links;
    let ghost o0 = violation_views(out@);
    let n = comp.links.len();
    assert(ls.take(0) =~= Seq::<LinkView>::empty());
    assert(violation_views(out@) =~= o0 + ls.take(0).filter_map(f));
    for i in 0..n
        invariant
            n == comp.links@.len(),
            ls == comp@.links,
            f == upstream_subject(comp@, code, pred),
            violation_views(out@) == o0 + ls.take(i as int).filter_map(f),
    {
        let l = &comp.links[i];
        assert(ls.take(i + 1).drop_last() =~= ls.take(i as int));
        assert(ls.take(i + 1).last() == l@);
        if l.predicate == pred && names_upstream_image(comp, l.subject.as_str()) {
            let ghost before = violation_views(out@);
            out.push(
                Violation {
                    code,
                    subject: l.subject.clone(),
                    predicate: Some(pred),
                    object: Some(l.object.clone()),
                },
            );
            assert(violation_views(out@) =~= before + seq![f(l@)->0]);
        }
    }
    assert(ls.take(n as int) =~= ls);
}

fn smoked(comp: &Composition, name: &String) -> (r: bool)
    ensures
        r == has_smoke(comp@, name@),
{
    let n = comp.links.len();
    let mut i: usize = 0;
    while i < n
        invariant
            n == comp.links@.len(),
            i <= n,
            forall|j: int|
                0 <= j < i ==> !((#[trigger] comp@.links[j]).predicate == Predicate::SmokesBy
                    && comp@.links[j].subject == name@),
        decreases n - i,
    {
        let l = &comp.links[i];
        if l.predicate == Predicate::SmokesBy && l.subject == *name {
            assert(comp@.links[i as int].subject == name@);
            return true;
        }
        i = i + 1;
    }
    false
}

fn push_unsmoked_processes(out: &mut Vec<Violation>, comp: &Composition)
    ensures
        violation_views(final(out)@) == violation_views(old(out)@) + comp@.entities.filter_map(
            unsmoked_process(comp@),
        ),
{
    let ghost f = unsmoked_process(comp@);
    let ghost es = comp@.entities;
    let ghost o0 = violation_views(out@);
    let n = comp.entities.len();
    assert(es.take(0) =~= Seq::<EntityView>::empty());
    assert(violation_views(out@) =~= o0 + es.take(0).filter_map(f));
    for i in 0..n
        invariant
            n == comp.entities@.len(),
            es == comp@.entities,
            f == unsmoked_process(comp@),
            violation_views(out@) == o0 + es.take(i as int).filter_map(f),
    {
        let e = &comp.entities[i];
        assert(es.take(i + 1).drop_last() =~= es.take(i as int));
        assert(es.take(i + 1).last() == e@);
        if e.entity_type == EntityType::Process && !smoked(comp, &e.name) {
            let ghost before = violation_views(out@);
            out.push(
                Violation {
                    code: InvariantCode::I5,
                    subject: e.name.clone(),
                    predicate: Some(Predicate::SmokesBy),
                    object: None,
                },
            );
            assert(violation_views(out@) =~= before + seq![f(e@)->0]);
        }
    }
    assert(es.take(n as int) =~= es);
}

fn inherits_from(comp: &Composition, subject: &String, object: &String) -> (r: bool)
    ensures
        r == inherits(comp@, subject@, object@),
{
    let n = comp.links.len();
    let mut i: usize = 0;
    while i < n
        invariant
            n == comp.links@.len(),
            i <= n,
            forall|j: int|
                0 <= j < i ==> !((#[trigger] comp@.links[j]).predicate == Predicate::InheritsFrom
                    && comp@.links[j].subject == subject@ && comp@.links[j].object == object@),
        decreases n - i,
    {
        let l = &comp.links[i];
        if l.predicate == Predicate::InheritsFrom && l.subject == *subject && l.object == *object {
            assert(comp@.links[i as int].subject == subject@);
            return true;
        }
        i = i + 1;
    }
    false
}

fn push_duplicate_pulls(out: &mut Vec<Violation>, comp: &Composition)
    ensures
        violation_views(final(out)@) == violation_views(old(out)@) + comp@.links.filter_map(
            duplicate_pull(comp@),
        ),
{
    let ghost f = duplicate_pull(comp@);
    let ghost ls = comp@.links;
    let ghost o0 = violation_views(out@);
    let n = comp.links.len();
    assert(ls.take(0) =~= Seq::<LinkView>::empty());
    assert(violation_views(out@) =~= o0 + ls.take(0).filter_map(f));
    for i in 0..n
        invariant
            n == comp.links@.len(),
            ls == comp@.links,
            f == duplicate_pull(comp@),
            violation_views(out@) == o0 + ls.take(i as int).filter_map(f),
    {
        let l = &comp.links[i];
        assert(ls.take(i + 1).drop_last() =~= ls.take(i as int));
        assert(ls.take(i + 1).last() == l@);
        if l.predicate == Predicate::CopiesFrom && inherits_from(comp, &l.subject, &l.object) {
            let ghost before = violation_views(out@);
            out.push(
                Violation {
                    code: InvariantCode::I6,
                    subject: l.subject.clone(),
                    predicate: Some(Predicate::CopiesFrom),
                    object: Some(l.object.clone()),
                },
            );
            assert(violation_views(out@) =~= before + seq![f(l@)->0]);
        }
    }
    assert(ls.take(n as int) =~= ls);
}

/// Every violation of the composition, in the order `spec_violations` gives.
fn violations(comp: &Composition) -> (r: Vec<Violation>)
    ensures
        violation_views(r@) == spec_violations(comp@),
{
    let mut out: Vec<Violation> = Vec::new();
    assert(violation_views(out@) =~= Seq::<ViolationView>::empty());
    push_upstream_subjects(&mut out, comp, InvariantCode::I1, Predicate::Builds);
    push_upstream_subjects(&mut out, comp, InvariantCode::I2, Predicate::ShimsFor);
    push_unsmoked_processes(&mut out, comp);
    push_duplicate_pulls(&mut out, comp);
    assert(violation_views(out@) =~= spec_violations(comp@));
    out
}

/// Checks the graph invariants. Succeeds when the composition violates none
/// of them, and otherwise fails with the first violation.
pub fn check_all(comp: &Composition) -> (r: Result<(), Violation>)
    ensures
        r is Ok <==> spec_violations(comp@).len() == 0,
        r matches Err(v) ==> v@ == spec_violations(comp@)[0],
{
    let mut all = violations(comp);
    if all.len() == 0 {
        Ok(())
    } else {
        let first = all.remove(0);
        Err(first)
    }
}


pub open spec fn spec_code_name(code: InvariantCode) -> Seq<char> {
    match code {
        InvariantCode::I1 => "I1"@,
        InvariantCode::I2 => "I2"@,
        InvariantCode::I5 => "I5"@,
        InvariantCode::I6 => "I6"@,
    }
}

pub open spec fn spec_reason(code: InvariantCode) -> Seq<char> {
    match code {
        InvariantCode::I1 => "an oci:UpstreamImage is never compiled"@,
        InvariantCode::I2 => "an oci:UpstreamImage is never patched"@,
        InvariantCode::I5 => "a svc:Process needs a SMOKES_BY"@,
        InvariantCode::I6 => "duplicate pull: the COPIES_FROM base is already inherited"@,
    }
}

/// The structured report line of a violation:
/// `<code> <subject> <predicate>? <object>? <reason>`.
pub open spec fn spec_report(v: ViolationView) -> Seq<char> {
    spec_code_name(v.code) + " "@ + v.subject + match v.predicate {
        Some(p) => " "@ + spec_predicate_term(p),
        None => seq![],
    } + match v.object {
        Some(o) => " "@ + o,
        None => seq![],
    } + " "@ + spec_reason(v.code)
}

impl InvariantCode {
    /// The invariant's name, as the report writes it.
    pub fn name(&self) -> (r: &'static str)
        ensures
            r@ == spec_code_name(*self),
    {
        match self {
            InvariantCode::I1 => "I1",
            InvariantCode::I2 => "I2",
            InvariantCode::I5 => "I5",
            InvariantCode::I6 => "I6",
        }
    }

    /// What the invariant demands.
    pub fn reason(&self) -> (r: &'static str)
        ensures
            r@ == spec_reason(*self),
    {
        match self {
            InvariantCode::I1 => "an oci:UpstreamImage is never compiled",
            InvariantCode::I2 => "an oci:UpstreamImage is never patched",
            InvariantCode::I5 => "a svc:Process needs a SMOKES_BY",
            InvariantCode::I6 => "duplicate pull: the COPIES_FROM base is already inherited",
        }
    }
}

impl Violation {
    /// The structured report line of the violation.
    pub fn report(&self) -> (r: String)
        ensures
            r@ == spec_report(self@),
    {
        let mut o = String::from_str(self.code.name());
        o.append(" ");
        o.append(self.subject.as_str());
        match self.predicate {
            Some(p) => {
                o.append(" ");
                o.append(predicate_term(p));
            },
            None => {},
        }
        match &self.object {
            Some(obj) => {
                o.append(" ");
                o.append(obj.as_str());
            },
            None => {},
        }
        o.append(" ");
        o.append(self.code.reason());
        assert(o@ =~= spec_report(self@));
        o
    }
}


// ---- laws --------------------------------------------------------------------

proof fn lemma_filter_map_empty<A, B>(s: Seq<A>, f: spec_fn(A) -> Option<B>)
    ensures
        s.filter_map(f).len() == 0 <==> forall|i: int| 0 <= i < s.len() ==> f(#[trigger] s[i]) is None,
    decreases s.len(),
{
    if s.len() > 0 {
        let t = s.drop_last();
        lemma_filter_map_empty(t, f);
        assert forall|i: int| 0 <= i < t.len() implies t[i] == #[trigger] s[i] by {}
        if s.filter_map(f).len() == 0 {
            assert(f(s.last()) is None);
            assert forall|i: int| 0 <= i < s.len() implies f(#[trigger] s[i]) is None by {
                if i < t.len() {
                    assert(f(t[i]) is None);
                }
            }
        } else {
            if f(s.last()) is None {
                let k = choose|k: int| 0 <= k < t.len() && !(f(#[trigger] t[k]) is None);
                assert(s[k] == t[k]);
            }
        }
    }
}

/// The graph satisfies I1, I2, I5 and I6, as the module documentation words
/// them.
pub open spec fn satisfies_invariants(c: CompositionView) -> bool {
    &&& forall|i: int|
        0 <= i < c.links.len() && (#[trigger] c.links[i]).predicate == Predicate::Builds
            ==> !names_upstream(c, c.links[i].subject)
    &&& forall|i: int|
        0 <= i < c.links.len() && (#[trigger] c.links[i]).predicate == Predicate::ShimsFor
            ==> !names_upstream(c, c.links[i].subject)
    &&& forall|i: int|
        0 <= i < c.entities.len() && (#[trigger] c.entities[i]).entity_type == EntityType::Process
            ==> has_smoke(c, c.entities[i].name)
    &&& forall|i: int|
        0 <= i < c.links.len() && (#[trigger] c.links[i]).predicate == Predicate::CopiesFrom
            ==> !inherits(c, c.links[i].subject, c.links[i].object)
}

/// The check finds no violation exactly when the graph satisfies the
/// invariants.
pub proof fn lemma_no_violation_iff_satisfied(c: CompositionView)
    ensures
        spec_violations(c).len() == 0 <==> satisfies_invariants(c),
{
    let f1 = upstream_subject(c, InvariantCode::I1, Predicate::Builds);
    let f2 = upstream_subject(c, InvariantCode::I2, Predicate::ShimsFor);
    let f5 = unsmoked_process(c);
    let f6 = duplicate_pull(c);
    lemma_filter_map_empty(c.links, f1);
    lemma_filter_map_empty(c.links, f2);
    lemma_filter_map_empty(c.entities, f5);
    lemma_filter_map_empty(c.links, f6);
    if satisfies_invariants(c) {
        assert forall|i: int| 0 <= i < c.links.len() implies f1(#[trigger] c.links[i]) is None by {}
        assert forall|i: int| 0 <= i < c.links.len() implies f2(#[trigger] c.links[i]) is None by {}
        assert forall|i: int| 0 <= i < c.entities.len() implies f5(#[trigger] c.entities[i]) is None by {}
        assert forall|i: int| 0 <= i < c.links.len() implies f6(#[trigger] c.links[i]) is None by {}
    }
    if spec_violations(c).len() == 0 {
        assert forall|i: int|
            0 <= i < c.links.len() && (#[trigger] c.links[i]).predicate == Predicate::Builds
                implies !names_upstream(c, c.links[i].subject) by {
            assert(f1(c.links[i]) is None);
        }
        assert forall|i: int|
            0 <= i < c.links.len() && (#[trigger] c.links[i]).predicate == Predicate::ShimsFor
                implies !names_upstream(c, c.links[i].subject) by {
            assert(f2(c.links[i]) is None);
        }
        assert forall|i: int|
            0 <= i < c.entities.len() && (#[trigger] c.entities[i]).entity_type
                == EntityType::Process implies has_smoke(c, c.entities[i].name) by {
            assert(f5(c.entities[i]) is None);
        }
        assert forall|i: int|
            0 <= i < c.links.len() && (#[trigger] c.links[i]).predicate == Predicate::CopiesFrom
                implies !inherits(c, c.links[i].subject, c.links[i].object) by {
            assert(f6(c.links[i]) is None);
        }
    }
}

/// The empty graph passes every check.
pub proof fn lemma_empty_graph_passes(c: CompositionView)
    requires
        c.entities.len() == 0,
        c.links.len() == 0,
    ensures
        spec_violations(c).len() == 0,
{
    lemma_no_violation_iff_satisfied(c);
}

/// The violations that `f` finds in `s` are each `f` of some element of `s`.
proof fn lemma_found_in<A, B>(s: Seq<A>, f: spec_fn(A) -> Option<B>, k: int)
    requires
        0 <= k < s.filter_map(f).len(),
    ensures
        exists|i: int| 0 <= i < s.len() && f(#[trigger] s[i]) == Some(s.filter_map(f)[k]),
{
    let v = s.filter_map(f)[k];
    assert(s.filter_map(f).contains(v));
    s.lemma_filter_map_contains(f, v);
    let t = choose|t: A| #[trigger] s.contains(t) && f(t) == Some(v);
    let i = choose|i: int| 0 <= i < s.len() && s[i] == t;
    assert(f(s[i]) == Some(v));
}

/// The code and edge of the violation at index `k` of all violations.
proof fn lemma_violation_source(c: CompositionView, k: int)
    requires
        0 <= k < spec_violations(c).len(),
    ensures
        spec_violations(c)[k].code == InvariantCode::I6 ==> exists|i: int|
            0 <= i < c.links.len() && (#[trigger] c.links[i]).predicate == Predicate::CopiesFrom
                && spec_violations(c)[k].subject == c.links[i].subject
                && spec_violations(c)[k].predicate == Some(Predicate::CopiesFrom)
                && spec_violations(c)[k].object == Some(c.links[i].object)
                && inherits(c, c.links[i].subject, c.links[i].object),
{
    let a = c.links.filter_map(upstream_subject(c, InvariantCode::I1, Predicate::Builds));
    let b = c.links.filter_map(upstream_subject(c, InvariantCode::I2, Predicate::ShimsFor));
    let e = c.entities.filter_map(unsmoked_process(c));
    let d = c.links.filter_map(duplicate_pull(c));
    let all = spec_violations(c);
    assert(all == a + b + e + d);
    let v = all[k];
    if k < a.len() {
        assert(v == a[k]);
        lemma_found_in(c.links, upstream_subject(c, InvariantCode::I1, Predicate::Builds), k);
    } else if k < a.len() + b.len() {
        assert(v == b[k - a.len()]);
        lemma_found_in(
            c.links,
            upstream_subject(c, InvariantCode::I2, Predicate::ShimsFor),
            k - a.len(),
        );
    } else if k < a.len() + b.len() + e.len() {
        assert(v == e[k - a.len() - b.len()]);
        lemma_found_in(c.entities, unsmoked_process(c), k - a.len() - b.len());
    } else {
        let kd = k - a.len() - b.len() - e.len();
        assert(v == d[kd]);
        lemma_found_in(c.links, duplicate_pull(c), kd);
        let i = choose|i: int| 0 <= i < c.links.len() && (duplicate_pull(c))(#[trigger] c.links[i]) == Some(d[kd]);
        assert(c.links[i].predicate == Predicate::CopiesFrom);
    }
}

/// I6 flags only duplicate pulls: every I6 violation is a `COPIES_FROM` edge
/// from `s` to `o` of the graph for which the graph also has an
/// `INHERITS_FROM` edge from the same `s` to the same `o`. So a graph whose
/// subjects never copy from a base they inherit has no I6 violation, however
/// many other bases they inherit or copy from.
pub proof fn lemma_i6_only_duplicate_pulls(c: CompositionView)
    ensures
        forall|k: int|
            0 <= k < spec_violations(c).len() && (#[trigger] spec_violations(c)[k]).code
                == InvariantCode::I6 ==> exists|i: int, j: int|
                0 <= i < c.links.len() && 0 <= j < c.links.len() && (#[trigger] c.links[i]).predicate
                    == Predicate::CopiesFrom && (#[trigger] c.links[j]).predicate
                    == Predicate::InheritsFrom && c.links[j].subject == c.links[i].subject
                    && c.links[j].object == c.links[i].object && spec_violations(c)[k].subject
                    == c.links[i].subject && spec_violations(c)[k].object == Some(c.links[i].object),
        (forall|i: int, j: int|
            0 <= i < c.links.len() && 0 <= j < c.links.len() && (#[trigger] c.links[i]).predicate
                == Predicate::CopiesFrom && (#[trigger] c.links[j]).predicate
                == Predicate::InheritsFrom && c.links[j].subject == c.links[i].subject
                ==> c.links[j].object != c.links[i].object) ==> forall|k: int|
            0 <= k < spec_violations(c).len() ==> (#[trigger] spec_violations(c)[k]).code
                != InvariantCode::I6,
{
    assert forall|k: int|
        0 <= k < spec_violations(c).len() && (#[trigger] spec_violations(c)[k]).code
            == InvariantCode::I6 implies exists|i: int, j: int|
            0 <= i < c.links.len() && 0 <= j < c.links.len() && (#[trigger] c.links[i]).predicate
                == Predicate::CopiesFrom && (#[trigger] c.links[j]).predicate
                == Predicate::InheritsFrom && c.links[j].subject == c.links[i].subject
                && c.links[j].object == c.links[i].object && spec_violations(c)[k].subject
                == c.links[i].subject && spec_violations(c)[k].object == Some(c.links[i].object) by {
        lemma_violation_source(c, k);
        let i = choose|i: int|
            0 <= i < c.links.len() && (#[trigger] c.links[i]).predicate == Predicate::CopiesFrom
                && spec_violations(c)[k].subject == c.links[i].subject
                && spec_violations(c)[k].predicate == Some(Predicate::CopiesFrom)
                && spec_violations(c)[k].object == Some(c.links[i].object)
                && inherits(c, c.links[i].subject, c.links[i].object);
        let j = choose|j: int|
            0 <= j < c.links.len() && (#[trigger] c.links[j]).predicate == Predicate::InheritsFrom
                && c.links[j].subject == c.links[i].subject && c.links[j].object == c.links[i].object;
        assert(c.links[i].predicate == Predicate::CopiesFrom && c.links[j].predicate
            == Predicate::InheritsFrom);
    }
}

/// What `f` finds in an element, `f` finds in the sequence.
proof fn lemma_found_from<A, B>(s: Seq<A>, f: spec_fn(A) -> Option<B>, i: int)
    requires
        0 <= i < s.len(),
        f(s[i]) is Some,
    ensures
        s.filter_map(f).contains(f(s[i])->0),
    decreases s.len(),
{
    let rest = s.drop_last();
    if i == s.len() - 1 {
        assert(s.filter_map(f) == rest.filter_map(f) + seq![f(s[i])->0]);
        assert(s.filter_map(f)[rest.filter_map(f).len() as int] == f(s[i])->0);
    } else {
        assert(rest[i] == s[i]);
        lemma_found_from(rest, f, i);
        let k = choose|k: int| 0 <= k < rest.filter_map(f).len() && rest.filter_map(f)[k] == f(s[i])->0;
        match f(s.last()) {
            Some(x) => {
                assert(s.filter_map(f) == rest.filter_map(f) + seq![x]);
                assert(s.filter_map(f)[k] == rest.filter_map(f)[k]);
            },
            None => {
                assert(s.filter_map(f) == rest.filter_map(f));
            },
        }
    }
}

/// The entity called `name` (the first of that name) is an upstream image,
/// written out over the entities.
pub open spec fn first_named_upstream(c: CompositionView, name: Seq<char>) -> bool {
    exists|e: int|
        0 <= e < c.entities.len() && (#[trigger] c.entities[e]).name == name
            && c.entities[e].entity_type == EntityType::UpstreamImage && forall|j: int|
            0 <= j < e ==> (#[trigger] c.entities[j]).name != name
}

proof fn lemma_first_named_upstream(c: CompositionView, name: Seq<char>)
    ensures
        names_upstream(c, name) == first_named_upstream(c, name),
{
    let p = crate::render::named(name);
    crate::search::lemma_first_index_found(c.entities, p);
    match spec_by_name(c, name) {
        Some(i) => {
            assert forall|j: int| 0 <= j < i implies (#[trigger] c.entities[j]).name != name by {
                assert(!p(c.entities[j]));
            }
            if first_named_upstream(c, name) {
                let e = choose|e: int|
                    0 <= e < c.entities.len() && (#[trigger] c.entities[e]).name == name
                        && c.entities[e].entity_type == EntityType::UpstreamImage && forall|j: int|
                        0 <= j < e ==> (#[trigger] c.entities[j]).name != name;
                if e < i {
                    assert(!p(c.entities[e]));
                } else if e > i {
                    assert(c.entities[i].name == name);
                }
            }
        },
        None => {
            if first_named_upstream(c, name) {
                let e = choose|e: int|
                    0 <= e < c.entities.len() && (#[trigger] c.entities[e]).name == name
                        && c.entities[e].entity_type == EntityType::UpstreamImage && forall|j: int|
                        0 <= j < e ==> (#[trigger] c.entities[j]).name != name;
                assert(!p(c.entities[e]));
            }
        },
    }
}

/// Every violation that the check reports is one the graph really has, each
/// code for its own rule: I1 a `BUILDS` edge, I2 a `SHIMS_FOR` edge, whose
/// subject is (the first entity of that name and) an upstream image; I5 a
/// process with no `SMOKES_BY` edge from it; I6 a `COPIES_FROM` edge whose
/// base the subject also inherits.
pub proof fn lemma_violations_are_real(c: CompositionView)
    ensures
        forall|k: int|
            0 <= k < spec_violations(c).len() ==> {
                let v = #[trigger] spec_violations(c)[k];
                &&& v.code == InvariantCode::I1 ==> exists|i: int|
                    0 <= i < c.links.len() && (#[trigger] c.links[i]).predicate == Predicate::Builds
                        && v.subject == c.links[i].subject && v.predicate == Some(Predicate::Builds)
                        && v.object == Some(c.links[i].object) && first_named_upstream(c, v.subject)
                &&& v.code == InvariantCode::I2 ==> exists|i: int|
                    0 <= i < c.links.len() && (#[trigger] c.links[i]).predicate
                        == Predicate::ShimsFor && v.subject == c.links[i].subject && v.predicate
                        == Some(Predicate::ShimsFor) && v.object == Some(c.links[i].object)
                        && first_named_upstream(c, v.subject)
                &&& v.code == InvariantCode::I5 ==> exists|e: int|
                    0 <= e < c.entities.len() && (#[trigger] c.entities[e]).entity_type
                        == EntityType::Process && v.subject == c.entities[e].name && v.predicate
                        == Some(Predicate::SmokesBy) && v.object is None && forall|j: int|
                        0 <= j < c.links.len() && (#[trigger] c.links[j]).predicate
                            == Predicate::SmokesBy ==> c.links[j].subject != v.subject
                &&& v.code == InvariantCode::I6 ==> exists|i: int, j: int|
                    0 <= i < c.links.len() && 0 <= j < c.links.len() && (#[trigger] c.links[i]).predicate
                        == Predicate::CopiesFrom && (#[trigger] c.links[j]).predicate
                        == Predicate::InheritsFrom && c.links[j].subject == c.links[i].subject
                        && c.links[j].object == c.links[i].object && v.subject == c.links[i].subject
                        && v.predicate == Some(Predicate::CopiesFrom) && v.object == Some(
                        c.links[i].object,
                    )
            },
{
    let f1 = upstream_subject(c, InvariantCode::I1, Predicate::Builds);
    let f2 = upstream_subject(c, InvariantCode::I2, Predicate::ShimsFor);
    let f5 = unsmoked_process(c);
    let f6 = duplicate_pull(c);
    let a = c.links.filter_map(f1);
    let b = c.links.filter_map(f2);
    let e = c.entities.filter_map(f5);
    let d = c.links.filter_map(f6);
    let all = spec_violations(c);
    assert(all == a + b + e + d);
    lemma_i6_only_duplicate_pulls(c);
    assert forall|k: int| 0 <= k < all.len() implies {
        let v = #[trigger] all[k];
        &&& v.code == InvariantCode::I1 ==> exists|i: int|
            0 <= i < c.links.len() && (#[trigger] c.links[i]).predicate == Predicate::Builds
                && v.subject == c.links[i].subject && v.predicate == Some(Predicate::Builds)
                && v.object == Some(c.links[i].object) && first_named_upstream(c, v.subject)
        &&& v.code == InvariantCode::I2 ==> exists|i: int|
            0 <= i < c.links.len() && (#[trigger] c.links[i]).predicate == Predicate::ShimsFor
                && v.subject == c.links[i].subject && v.predicate == Some(Predicate::ShimsFor)
                && v.object == Some(c.links[i].object) && first_named_upstream(c, v.subject)
        &&& v.code == InvariantCode::I5 ==> exists|e: int|
            0 <= e < c.entities.len() && (#[trigger] c.entities[e]).entity_type
                == EntityType::Process && v.subject == c.entities[e].name && v.predicate == Some(
                Predicate::SmokesBy,
            ) && v.object is None && forall|j: int|
                0 <= j < c.links.len() && (#[trigger] c.links[j]).predicate == Predicate::SmokesBy
                    ==> c.links[j].subject != v.subject
        &&& v.code == InvariantCode::I6 ==> exists|i: int, j: int|
            0 <= i < c.links.len() && 0 <= j < c.links.len() && (#[trigger] c.links[i]).predicate
                == Predicate::CopiesFrom && (#[trigger] c.links[j]).predicate
                == Predicate::InheritsFrom && c.links[j].subject == c.links[i].subject
                && c.links[j].object == c.links[i].object && v.subject == c.links[i].subject
                && v.predicate == Some(Predicate::CopiesFrom) && v.object == Some(c.links[i].object)
    } by {
        let v = all[k];
        if k < a.len() {
            assert(v == a[k]);
            lemma_found_in(c.links, f1, k);
            let i = choose|i: int| 0 <= i < c.links.len() && f1(#[trigger] c.links[i]) == Some(a[k]);
            lemma_first_named_upstream(c, c.links[i].subject);
            assert(c.links[i].predicate == Predicate::Builds);
        } else if k < a.len() + b.len() {
            assert(v == b[k - a.len()]);
            lemma_found_in(c.links, f2, k - a.len());
            let i = choose|i: int|
                0 <= i < c.links.len() && f2(#[trigger] c.links[i]) == Some(b[k - a.len()]);
            lemma_first_named_upstream(c, c.links[i].subject);
            assert(c.links[i].predicate == Predicate::ShimsFor);
        } else if k < a.len() + b.len() + e.len() {
            let ke = k - a.len() - b.len();
            assert(v == e[ke]);
            lemma_found_in(c.entities, f5, ke);
            let i = choose|i: int| 0 <= i < c.entities.len() && f5(#[trigger] c.entities[i]) == Some(e[ke]);
            assert(c.entities[i].entity_type == EntityType::Process);
            assert forall|j: int|
                0 <= j < c.links.len() && (#[trigger] c.links[j]).predicate == Predicate::SmokesBy
                    implies c.links[j].subject != v.subject by {
                if c.links[j].subject == v.subject {
                    assert(has_smoke(c, c.entities[i].name));
                }
            }
        } else {
            let kd = k - a.len() - b.len() - e.len();
            assert(v == d[kd]);
            lemma_found_in(c.links, f6, kd);
        }
    }
}

/// The check misses no violation: every `BUILDS` or `SHIMS_FOR` edge from an
/// upstream image, every process without a `SMOKES_BY` edge, and every
/// `COPIES_FROM` edge whose base the subject also inherits is reported, with
/// its code, subject and object. So the check fails on each of them.
pub proof fn lemma_violations_are_found(c: CompositionView)
    ensures
        forall|i: int|
            0 <= i < c.links.len() && (#[trigger] c.links[i]).predicate == Predicate::Builds
                && first_named_upstream(c, c.links[i].subject) ==> spec_violations(c).contains(
                ViolationView {
                    code: InvariantCode::I1,
                    subject: c.links[i].subject,
                    predicate: Some(Predicate::Builds),
                    object: Some(c.links[i].object),
                },
            ),
        forall|i: int|
            0 <= i < c.links.len() && (#[trigger] c.links[i]).predicate == Predicate::ShimsFor
                && first_named_upstream(c, c.links[i].subject) ==> spec_violations(c).contains(
                ViolationView {
                    code: InvariantCode::I2,
                    subject: c.links[i].subject,
                    predicate: Some(Predicate::ShimsFor),
                    object: Some(c.links[i].object),
                },
            ),
        forall|e: int|
            0 <= e < c.entities.len() && (#[trigger] c.entities[e]).entity_type == EntityType::Process
                && (forall|j: int|
                0 <= j < c.links.len() && (#[trigger] c.links[j]).predicate == Predicate::SmokesBy
                    ==> c.links[j].subject != c.entities[e].name) ==> spec_violations(c).contains(
                ViolationView {
                    code: InvariantCode::I5,
                    subject: c.entities[e].name,
                    predicate: Some(Predicate::SmokesBy),
                    object: None,
                },
            ),
        forall|i: int, j: int|
            0 <= i < c.links.len() && 0 <= j < c.links.len() && (#[trigger] c.links[i]).predicate
                == Predicate::CopiesFrom && (#[trigger] c.links[j]).predicate
                == Predicate::InheritsFrom && c.links[j].subject == c.links[i].subject
                && c.links[j].object == c.links[i].object ==> spec_violations(c).contains(
                ViolationView {
                    code: InvariantCode::I6,
                    subject: c.links[i].subject,
                    predicate: Some(Predicate::CopiesFrom),
                    object: Some(c.links[i].object),
                },
            ),
{
    let f1 = upstream_subject(c, InvariantCode::I1, Predicate::Builds);
    let f2 = upstream_subject(c, InvariantCode::I2, Predicate::ShimsFor);
    let f5 = unsmoked_process(c);
    let f6 = duplicate_pull(c);
    let a = c.links.filter_map(f1);
    let b = c.links.filter_map(f2);
    let e = c.entities.filter_map(f5);
    let d = c.links.filter_map(f6);
    let all = spec_violations(c);
    assert(all == a + b + e + d);
    assert forall|x: ViolationView| a.contains(x) implies all.contains(x) by {
        let k = choose|k: int| 0 <= k < a.len() && a[k] == x;
        assert(all[k] == x);
    }
    assert forall|x: ViolationView| b.contains(x) implies all.contains(x) by {
        let k = choose|k: int| 0 <= k < b.len() && b[k] == x;
        assert(all[a.len() + k] == x);
    }
    assert forall|x: ViolationView| e.contains(x) implies all.contains(x) by {
        let k = choose|k: int| 0 <= k < e.len() && e[k] == x;
        assert(all[a.len() + b.len() + k] == x);
    }
    assert forall|x: ViolationView| d.contains(x) implies all.contains(x) by {
        let k = choose|k: int| 0 <= k < d.len() && d[k] == x;
        assert(all[a.len() + b.len() + e.len() + k] == x);
    }
    assert forall|i: int|
        0 <= i < c.links.len() && (#[trigger] c.links[i]).predicate == Predicate::Builds
            && first_named_upstream(c, c.links[i].subject) implies all.contains(
            ViolationView {
                code: InvariantCode::I1,
                subject: c.links[i].subject,
                predicate: Some(Predicate::Builds),
                object: Some(c.links[i].object),
            },
        ) by {
        lemma_first_named_upstream(c, c.links[i].subject);
        lemma_found_from(c.links, f1, i);
    }
    assert forall|i: int|
        0 <= i < c.links.len() && (#[trigger] c.links[i]).predicate == Predicate::ShimsFor
            && first_named_upstream(c, c.links[i].subject) implies all.contains(
            ViolationView {
                code: InvariantCode::I2,
                subject: c.links[i].subject,
                predicate: Some(Predicate::ShimsFor),
                object: Some(c.links[i].object),
            },
        ) by {
        lemma_first_named_upstream(c, c.links[i].subject);
        lemma_found_from(c.links, f2, i);
    }
    assert forall|k: int|
        0 <= k < c.entities.len() && (#[trigger] c.entities[k]).entity_type == EntityType::Process
            && (forall|j: int|
            0 <= j < c.links.len() && (#[trigger] c.links[j]).predicate == Predicate::SmokesBy
                ==> c.links[j].subject != c.entities[k].name) implies all.contains(
            ViolationView {
                code: InvariantCode::I5,
                subject: c.entities[k].name,
                predicate: Some(Predicate::SmokesBy),
                object: None,
            },
        ) by {
        if has_smoke(c, c.entities[k].name) {
            let j = choose|j: int|
                0 <= j < c.links.len() && (#[trigger] c.links[j]).predicate == Predicate::SmokesBy
                    && c.links[j].subject == c.entities[k].name;
            assert(c.links[j].predicate == Predicate::SmokesBy);
        }
        lemma_found_from(c.entities, f5, k);
    }
    assert forall|i: int, j: int|
        0 <= i < c.links.len() && 0 <= j < c.links.len() && (#[trigger] c.links[i]).predicate
            == Predicate::CopiesFrom && (#[trigger] c.links[j]).predicate
            == Predicate::InheritsFrom && c.links[j].subject == c.links[i].subject
            && c.links[j].object == c.links[i].object implies all.contains(
            ViolationView {
                code: InvariantCode::I6,
                subject: c.links[i].subject,
                predicate: Some(Predicate::CopiesFrom),
                object: Some(c.links[i].object),
            },
        ) by {
        assert(inherits(c, c.links[i].subject, c.links[i].object));
        lemma_found_from(c.links, f6, i);
    }
}

/// The rank of a code in the order the check reports them.
pub open spec fn code_rank(code: InvariantCode) -> int {
    match code {
        InvariantCode::I1 => 1,
        InvariantCode::I2 => 2,
        InvariantCode::I5 => 5,
        InvariantCode::I6 => 6,
    }
}

/// The violations come I1 first, then I2, then I5, then I6; so the one the
/// check reports is of the lowest code the graph violates.
pub proof fn lemma_violations_by_code(c: CompositionView)
    ensures
        forall|k1: int, k2: int|
            0 <= k1 < k2 < spec_violations(c).len() ==> code_rank(
                (#[trigger] spec_violations(c)[k1]).code,
            ) <= code_rank((#[trigger] spec_violations(c)[k2]).code),
{
    let f1 = upstream_subject(c, InvariantCode::I1, Predicate::Builds);
    let f2 = upstream_subject(c, InvariantCode::I2, Predicate::ShimsFor);
    let f5 = unsmoked_process(c);
    let f6 = duplicate_pull(c);
    let a = c.links.filter_map(f1);
    let b = c.links.filter_map(f2);
    let e = c.entities.filter_map(f5);
    let d = c.links.filter_map(f6);
    let all = spec_violations(c);
    assert(all == a + b + e + d);
    assert forall|k: int| 0 <= k < all.len() implies code_rank(#[trigger] all[k].code) == (if k
        < a.len() {
        1int
    } else if k < a.len() + b.len() {
        2int
    } else if k < a.len() + b.len() + e.len() {
        5int
    } else {
        6int
    }) by {
        if k < a.len() {
            lemma_found_in(c.links, f1, k);
        } else if k < a.len() + b.len() {
            lemma_found_in(c.links, f2, k - a.len());
        } else if k < a.len() + b.len() + e.len() {
            lemma_found_in(c.entities, f5, k - a.len() - b.len());
        } else {
            lemma_found_in(c.links, f6, k - a.len() - b.len() - e.len());
        }
    }
}

} // verus!
