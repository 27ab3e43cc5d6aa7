//! The search of the dependency resolver: a depth-first search over the
//! dependencies still to resolve, trying the candidates of each in the
//! order the registry gives them (highest version first) and going back
//! to an earlier choice when a dependency has no candidate left.
//!
//! The search is a state machine: each step takes an event (a root
//! package to activate, the candidates the registry gave for a dependency,
//! or leave to go on) and answers with an action (ask the registry about a
//! dependency, go on, the resolution found, or the reason none exists).
use vstd::prelude::*;
use crate::package_id_spec::{same_package, PackageId, PackageIdView};
use crate::summary::{Dependency, Summary, SummaryView};
use crate::resolver_context::{
    activations_ok, candidate_check, conflicts_view, copy_conflicts, dep_full, find_candidate, find_from,
    flag_activated_spec, jump_age, key_index, lemma_backjump_lands_old_enough, lemma_key_index, lemma_flag_keeps_links_distinct, links_distinct,
    record_conflict, resolve_features_spec, resolved_view, scan_candidates, ActivationError, BacktrackFrame, Candidate, CandidateView,
    ConflictReason, ConflictReasonView, Context, ContextView, FeatureError, FeatureErrorView, FrameView, Method,
    MethodView, RemainingCandidates, RemainingView,
};
use crate::text::{clone_opt_string, copy_strings, opt_str, strs};

verus! {

/// A candidate the registry offers for a dependency: the package's
/// summary, with the native library it links, if any.
#[derive(Debug)]
pub struct Offer {
    pub summary: Summary,
    pub links: Option<String>,
}

/// The mathematical value of an `Offer`: the summary, its dependencies in
/// full (with the features each asks for), and the library it links.
pub struct OfferView {
    pub summary: SummaryView,
    pub deps: Seq<(Seq<char>, bool, bool, Seq<Seq<char>>)>,
    pub links: Option<Seq<char>>,
}

impl View for Offer {
    type V = OfferView;

    open spec fn view(&self) -> OfferView {
        OfferView {
            summary: self.summary@,
            deps: self.summary.dep_list().map_values(|d: Dependency| dep_full(d)),
            links: opt_str(self.links),
        }
    }
}

/// The views of the offers.
pub open spec fn offers_view(v: Seq<Offer>) -> Seq<OfferView> {
    v.map_values(|o: Offer| o@)
}

/// The candidate an offer makes: its package id and the library it links.
pub open spec fn offer_candidate(o: OfferView) -> CandidateView {
    CandidateView { id: o.summary.package_id, links: o.links }
}

/// A dependency still to resolve: the position (among the offers received)
/// of the package whose dependency it is, the dependency, and the features
/// to activate it with.
#[derive(Debug)]
pub struct Pending {
    pub parent: usize,
    pub dep: Dependency,
    pub features: Vec<String>,
}

/// The mathematical value of a `Pending`.
pub struct PendingView {
    pub parent: nat,
    pub dep: (Seq<char>, bool, bool, Seq<Seq<char>>),
    pub features: Seq<Seq<char>>,
}

impl View for Pending {
    type V = PendingView;

    open spec fn view(&self) -> PendingView {
        PendingView { parent: self.parent as nat, dep: dep_full(self.dep), features: strs(self.features@) }
    }
}

/// The views of the dependencies still to resolve.
pub open spec fn pendings_view(v: Seq<Pending>) -> Seq<PendingView> {
    v.map_values(|p: Pending| p@)
}

/// The views of resolved dependencies: the package whose dependency it
/// is, the dependency's name, and the package activated for it.
pub open spec fn edges_view(v: Seq<(PackageId, String, PackageId)>) -> Seq<(PackageIdView, Seq<char>, PackageIdView)> {
    v.map_values(|e: (PackageId, String, PackageId)| (e.0@, e.1@, e.2@))
}

/// The views of positions.
pub open spec fn positions_view(v: Seq<usize>) -> Seq<nat> {
    v.map_values(|i: usize| i as nat)
}

/// What is kept with a point to go back to, beside its frame: the
/// dependencies still to resolve then, the dependencies resolved then, the
/// dependencies asked for then, and
/// the dependency being resolved (the position of its parent, the
/// dependency, its features, and the positions of its offers).
pub struct Saved {
    pub pending: Vec<Pending>,
    pub edges: Vec<(PackageId, String, PackageId)>,
    pub needed: Ghost<Seq<(PackageIdView, Seq<char>)>>,
    pub parent: usize,
    pub dep: Dependency,
    pub features: Vec<String>,
    pub offers: Vec<usize>,
}

/// The mathematical value of a `Saved`.
pub struct SavedView {
    pub pending: Seq<PendingView>,
    pub edges: Seq<(PackageIdView, Seq<char>, PackageIdView)>,
    pub needed: Seq<(PackageIdView, Seq<char>)>,
    pub parent: nat,
    pub dep: (Seq<char>, bool, bool, Seq<Seq<char>>),
    pub features: Seq<Seq<char>>,
    pub offers: Seq<nat>,
}

impl View for Saved {
    type V = SavedView;

    open spec fn view(&self) -> SavedView {
        SavedView {
            pending: pendings_view(self.pending@),
            edges: edges_view(self.edges@),
            needed: self.needed@,
            parent: self.parent as nat,
            dep: dep_full(self.dep),
            features: strs(self.features@),
            offers: positions_view(self.offers@),
        }
    }
}

/// The dependency being resolved: the position of its parent, the
/// dependency, its features, the positions of its offers, the candidates
/// left, the conflicts met, and whether it was reached by going back.
pub struct Trying {
    pub parent: usize,
    pub dep: Dependency,
    pub features: Vec<String>,
    pub offers: Vec<usize>,
    pub candidates: RemainingCandidates,
    pub conflicts: Vec<(PackageId, ConflictReason)>,
    pub backtracked: bool,
}

/// The mathematical value of a `Trying`.
pub struct TryingView {
    pub parent: nat,
    pub dep: (Seq<char>, bool, bool, Seq<Seq<char>>),
    pub features: Seq<Seq<char>>,
    pub offers: Seq<nat>,
    pub candidates: RemainingView,
    pub conflicts: Seq<(PackageIdView, ConflictReasonView)>,
    pub backtracked: bool,
}

impl View for Trying {
    type V = TryingView;

    open spec fn view(&self) -> TryingView {
        TryingView {
            parent: self.parent as nat,
            dep: dep_full(self.dep),
            features: strs(self.features@),
            offers: positions_view(self.offers@),
            candidates: self.candidates@,
            conflicts: conflicts_view(self.conflicts@),
            backtracked: self.backtracked,
        }
    }
}

/// Where the search stands: ready for a root or the next dependency,
/// waiting for the registry's candidates for a dependency, trying the
/// candidates of a dependency, or finished.
pub enum Phase {
    Idle,
    Awaiting(Pending),
    Trying(Trying),
    Finished,
}

/// The mathematical value of a `Phase`.
pub enum PhaseView {
    Idle,
    Awaiting(PendingView),
    Trying(TryingView),
    Finished,
}

impl View for Phase {
    type V = PhaseView;

    open spec fn view(&self) -> PhaseView {
        match self {
            Phase::Idle => PhaseView::Idle,
            Phase::Awaiting(p) => PhaseView::Awaiting(p@),
            Phase::Trying(t) => PhaseView::Trying(t@),
            Phase::Finished => PhaseView::Finished,
        }
    }
}

/// Why no resolution exists: the conflicts that kept the last dependency
/// out when nothing was left to go back to, a native library linked twice,
/// or the features of a package.
#[derive(Debug)]
pub enum ResolveFailure {
    Conflicts(Vec<(PackageId, ConflictReason)>),
    Links(String),
    Features(FeatureError),
}

/// The mathematical value of a `ResolveFailure`.
pub enum FailureView {
    Conflicts(Seq<(PackageIdView, ConflictReasonView)>),
    Links(Seq<char>),
    Features(FeatureErrorView),
}

impl View for ResolveFailure {
    type V = FailureView;

    open spec fn view(&self) -> FailureView {
        match self {
            ResolveFailure::Conflicts(c) => FailureView::Conflicts(conflicts_view(c@)),
            ResolveFailure::Links(l) => FailureView::Links(l@),
            ResolveFailure::Features(e) => FailureView::Features(e@),
        }
    }
}

/// A resolution: the active packages in the order activated, and each
/// dependency resolved (its parent, its name, the package activated).
#[derive(Debug)]
pub struct Resolution {
    pub packages: Vec<PackageId>,
    pub edges: Vec<(PackageId, String, PackageId)>,
}

/// The mathematical value of a `Resolution`.
pub struct ResolutionView {
    pub packages: Seq<PackageIdView>,
    pub edges: Seq<(PackageIdView, Seq<char>, PackageIdView)>,
}

impl View for Resolution {
    type V = ResolutionView;

    open spec fn view(&self) -> ResolutionView {
        ResolutionView {
            packages: self.packages@.map_values(|p: PackageId| p@),
            edges: edges_view(self.edges@),
        }
    }
}

/// What the search hands to a step: a root package to activate with its
/// method, the candidates the registry gave for the dependency asked
/// about, or leave to go on.
#[derive(Debug)]
pub enum ResolveEvent {
    Root(Offer, Method),
    Candidates(Vec<Offer>),
    Proceed,
}

/// The mathematical value of a `ResolveEvent`.
pub enum EventView {
    Root(OfferView, MethodView),
    Candidates(Seq<OfferView>),
    Proceed,
}

impl View for ResolveEvent {
    type V = EventView;

    open spec fn view(&self) -> EventView {
        match self {
            ResolveEvent::Root(o, m) => EventView::Root(o@, m@),
            ResolveEvent::Candidates(v) => EventView::Candidates(offers_view(v@)),
            ResolveEvent::Proceed => EventView::Proceed,
        }
    }
}

/// What a step asks for: the candidates of a dependency, to be called
/// again, nothing more (the resolution), or nothing more (the reason
/// none exists); an event the phase does not take is refused.
#[derive(Debug)]
pub enum ResolveAction {
    Query(Dependency),
    Proceed,
    Done(Resolution),
    Fail(ResolveFailure),
    Unexpected,
}

/// The mathematical value of a `ResolveAction`.
pub enum ActionView {
    Query((Seq<char>, bool, bool, Seq<Seq<char>>)),
    Proceed,
    Done(ResolutionView),
    Fail(FailureView),
    Unexpected,
}

impl View for ResolveAction {
    type V = ActionView;

    open spec fn view(&self) -> ActionView {
        match self {
            ResolveAction::Query(d) => ActionView::Query(dep_full(*d)),
            ResolveAction::Proceed => ActionView::Proceed,
            ResolveAction::Done(r) => ActionView::Done(r@),
            ResolveAction::Fail(f) => ActionView::Fail(f@),
            ResolveAction::Unexpected => ActionView::Unexpected,
        }
    }
}

/// A copy of a dependency still to resolve.
fn copy_pending(p: &Pending) -> (r: Pending)
    ensures
        r@ == p@,
{
    Pending { parent: p.parent, dep: p.dep.duplicate(), features: copy_strings(&p.features) }
}

/// A copy of the dependencies still to resolve.
fn copy_pendings(v: &Vec<Pending>) -> (r: Vec<Pending>)
    ensures
        pendings_view(r@) == pendings_view(v@),
{
    let mut out: Vec<Pending> = Vec::new();
    let mut i: usize = 0;
    while i < v.len()
        invariant
            i <= v@.len(),
            out@.len() == i,
            forall|j: int| 0 <= j < i ==> (#[trigger] out@[j])@ == v@[j]@,
        decreases v.len() - i,
    {
        out.push(copy_pending(&v[i]));
        i = i + 1;
    }
    assert(pendings_view(out@) =~= pendings_view(v@));
    out
}

/// A copy of the resolved dependencies.
fn copy_edges(v: &Vec<(PackageId, String, PackageId)>) -> (r: Vec<(PackageId, String, PackageId)>)
    ensures
        edges_view(r@) == edges_view(v@),
{
    let mut out: Vec<(PackageId, String, PackageId)> = Vec::new();
    let mut i: usize = 0;
    while i < v.len()
        invariant
            i <= v@.len(),
            out@.len() == i,
            forall|j: int|
                0 <= j < i ==> (#[trigger] out@[j]).0@ == v@[j].0@ && out@[j].1@ == v@[j].1@ && out@[j].2@ == v@[j].2@,
        decreases v.len() - i,
    {
        out.push((v[i].0.duplicate(), v[i].1.clone(), v[i].2.duplicate()));
        i = i + 1;
    }
    assert(edges_view(out@) =~= edges_view(v@));
    out
}

/// A copy of positions.
fn copy_positions(v: &Vec<usize>) -> (r: Vec<usize>)
    ensures
        r@ == v@,
{
    let mut out: Vec<usize> = Vec::new();
    let mut i: usize = 0;
    while i < v.len()
        invariant
            i <= v@.len(),
            out@ == v@.take(i as int),
        decreases v.len() - i,
    {
        out.push(v[i]);
        assert(v@.take(i + 1) =~= v@.take(i as int).push(v@[i as int]));
        i = i + 1;
    }
    assert(v@.take(v@.len() as int) =~= v@);
    out
}

/// The state of the search: the packages activated so far, every offer
/// received, the dependencies still to resolve (the last one first), the
/// points to go back to with what is kept beside each, the dependencies
/// resolved, the dependencies asked for by the activations (each as the
/// package and the dependency's name), and the phase.
pub struct ResolveState {
    cx: Context,
    arena: Vec<Offer>,
    pending: Vec<Pending>,
    frames: Vec<BacktrackFrame>,
    saved: Vec<Saved>,
    edges: Vec<(PackageId, String, PackageId)>,
    needed: Ghost<Seq<(PackageIdView, Seq<char>)>>,
    phase: Phase,
}

/// The mathematical value of a `ResolveState`.
pub struct StateView {
    pub cx: ContextView,
    pub arena: Seq<OfferView>,
    pub pending: Seq<PendingView>,
    pub frames: Seq<FrameView>,
    pub saved: Seq<SavedView>,
    pub edges: Seq<(PackageIdView, Seq<char>, PackageIdView)>,
    pub needed: Seq<(PackageIdView, Seq<char>)>,
    pub phase: PhaseView,
}

impl View for ResolveState {
    type V = StateView;

    closed spec fn view(&self) -> StateView {
        StateView {
            cx: self.cx@,
            arena: offers_view(self.arena@),
            pending: pendings_view(self.pending@),
            frames: self.frames@.map_values(|f: BacktrackFrame| f@),
            saved: self.saved@.map_values(|x: Saved| x@),
            edges: edges_view(self.edges@),
            needed: self.needed@,
            phase: self.phase@,
        }
    }
}

/// Whether the package is active: an active package is the same package.
pub open spec fn is_active_pkg(c: ContextView, id: PackageIdView) -> bool {
    exists|i: int| 0 <= i < c.activations.len() && same_package(#[trigger] c.activations[i].0, id)
}

/// Whether every resolved dependency names an active package.
pub open spec fn edges_active(c: ContextView, edges: Seq<(PackageIdView, Seq<char>, PackageIdView)>) -> bool {
    forall|i: int| 0 <= i < edges.len() ==> is_active_pkg(c, (#[trigger] edges[i]).2)
}

/// Whether the dependencies still to resolve have parents among the offers.
pub open spec fn pendings_ok(ps: Seq<PendingView>, n: nat) -> bool {
    forall|i: int| 0 <= i < ps.len() ==> (#[trigger] ps[i]).parent < n
}

/// Whether the positions are those of offers.
pub open spec fn positions_ok(os: Seq<nat>, n: nat) -> bool {
    forall|i: int| 0 <= i < os.len() ==> #[trigger] os[i] < n
}

/// Whether a state holds together: every position is that of an offer;
/// there is one kept record per point to go back to; no native library is
/// linked twice, now or at any point to go back to; every resolved
/// dependency names an active package, now and at each such point; and,
/// until the search is finished, every dependency asked for is resolved,
/// still to resolve, or the one being resolved, now and at each such
/// point.
pub open spec fn state_ok(s: StateView) -> bool {
    let n = s.arena.len();
    &&& pendings_ok(s.pending, n)
    &&& s.frames.len() == s.saved.len()
    &&& links_distinct(s.cx.links)
    &&& edges_active(s.cx, s.edges)
    &&& forall|i: int| 0 <= i < s.saved.len() ==> {
        &&& pendings_ok((#[trigger] s.saved[i]).pending, n)
        &&& s.saved[i].parent < n
        &&& positions_ok(s.saved[i].offers, n)
        &&& links_distinct(s.frames[i].context.links)
        &&& edges_active(s.frames[i].context, s.saved[i].edges)
        &&& accounted(s.arena, s.saved[i].needed, s.saved[i].edges, s.saved[i].pending, Some((s.saved[i].parent, s.saved[i].dep.0)))
    }
    &&& (s.phase !is Finished ==> accounted(s.arena, s.needed, s.edges, s.pending, current_dep(s.phase)))
    &&& match s.phase {
        PhaseView::Awaiting(p) => p.parent < n,
        PhaseView::Trying(t) => t.parent < n && positions_ok(t.offers, n),
        _ => true,
    }
}

/// The method a dependency activates its candidate with: its features,
/// with the default ones, and no development dependencies.
pub open spec fn method_for(features: Seq<Seq<char>>) -> MethodView {
    MethodView::Required { dev_deps: false, features, all_features: false, uses_default_features: true }
}

/// What activating an offer does: refused when an active package is in
/// its way (see `candidate_check`); else the package is flagged active
/// (see `flag_activated_spec`), an error when its library is linked
/// already; if it was active with everything asked for, nothing more
/// (`None`); else its features are resolved (see
/// `resolve_features_spec`), giving the dependencies to resolve next.
pub open spec fn activate_spec(c: ContextView, parent: Option<PackageIdView>, o: OfferView, m: MethodView) -> (
    ContextView,
    Result<Option<Seq<((Seq<char>, bool, bool, Seq<Seq<char>>), Seq<Seq<char>>)>>, FailureView>,
) {
    match candidate_check(c, offer_candidate(o)) {
        Some((a, why)) => (c, Err(FailureView::Conflicts(seq![(a, why)]))),
        None => {
            let (c1, r) = flag_activated_spec(c, o.summary, o.links, m);
            match r {
                Err(l) => (c1, Err(FailureView::Links(l))),
                Ok(true) => (c1, Ok(None)),
                Ok(false) => {
                    let (c2, r2) = resolve_features_spec(c1, parent, o.deps, o.summary, m);
                    match r2 {
                        Err(e) => (c2, Err(FailureView::Features(e))),
                        Ok(list) => (c2, Ok(Some(list))),
                    }
                },
            }
        },
    }
}

/// The dependencies of the offer at position `j` to resolve next.
pub open spec fn pending_of(j: nat, list: Seq<((Seq<char>, bool, bool, Seq<Seq<char>>), Seq<Seq<char>>)>) -> Seq<PendingView> {
    list.map_values(|x: ((Seq<char>, bool, bool, Seq<Seq<char>>), Seq<Seq<char>>)| PendingView { parent: j, dep: x.0, features: x.1 })
}

/// The dependencies an activation of the package asks for: the package
/// and each dependency's name.
pub open spec fn needs_of(id: PackageIdView, list: Seq<((Seq<char>, bool, bool, Seq<Seq<char>>), Seq<Seq<char>>)>) -> Seq<(PackageIdView, Seq<char>)> {
    list.map_values(|x: ((Seq<char>, bool, bool, Seq<Seq<char>>), Seq<Seq<char>>)| (id, x.0.0))
}

/// Whether a resolved dependency has the package and the name.
pub open spec fn resolved_need(edges: Seq<(PackageIdView, Seq<char>, PackageIdView)>, n: (PackageIdView, Seq<char>)) -> bool {
    exists|i: int| 0 <= i < edges.len() && (#[trigger] edges[i]).0 == n.0 && edges[i].1 == n.1
}

/// Whether a dependency asked for is resolved, still to resolve, or the
/// one being resolved.
pub open spec fn met_or_open(
    arena: Seq<OfferView>,
    n: (PackageIdView, Seq<char>),
    edges: Seq<(PackageIdView, Seq<char>, PackageIdView)>,
    pending: Seq<PendingView>,
    cur: Option<(nat, Seq<char>)>,
) -> bool {
    ||| resolved_need(edges, n)
    ||| exists|i: int|
        0 <= i < pending.len() && arena[(#[trigger] pending[i]).parent as int].summary.package_id == n.0 && pending[i].dep.0 == n.1
    ||| (cur matches Some((p, d)) && arena[p as int].summary.package_id == n.0 && d == n.1)
}

/// Whether every dependency asked for is resolved, still to resolve, or
/// the one being resolved.
pub open spec fn accounted(
    arena: Seq<OfferView>,
    needed: Seq<(PackageIdView, Seq<char>)>,
    edges: Seq<(PackageIdView, Seq<char>, PackageIdView)>,
    pending: Seq<PendingView>,
    cur: Option<(nat, Seq<char>)>,
) -> bool {
    forall|k: int| 0 <= k < needed.len() ==> met_or_open(arena, #[trigger] needed[k], edges, pending, cur)
}

/// The dependency being resolved in a phase, as the position of its
/// parent and its name.
pub open spec fn current_dep(ph: PhaseView) -> Option<(nat, Seq<char>)> {
    match ph {
        PhaseView::Awaiting(p) => Some((p.parent, p.dep.0)),
        PhaseView::Trying(t) => Some((t.parent, t.dep.0)),
        _ => None,
    }
}

/// The first offer, among the positions from the `i`-th on, that is the
/// package.
pub open spec fn offer_index(arena: Seq<OfferView>, offers: Seq<nat>, id: PackageIdView, i: nat) -> Option<nat>
    decreases offers.len() - i,
{
    if i >= offers.len() {
        None
    } else if same_package(arena[offers[i as int] as int].summary.package_id, id) {
        Some(offers[i as int])
    } else {
        offer_index(arena, offers, id, i + 1)
    }
}

/// Trying a candidate of the dependency: when another may follow, a point
/// to go back to is kept first (the context, the candidates left, the
/// conflicts, and what is kept beside); then the candidate's offer is
/// activated. On success the dependency is resolved, the offer's
/// dependencies are added to those to resolve, and the search goes on;
/// an error ends it.
pub open spec fn attempt(s: StateView, t: TryingView, b: CandidateView, more: bool) -> (StateView, ActionView) {
    let parent_id = s.arena[t.parent as int].summary.package_id;
    let s1 = if more {
        StateView {
            frames: s.frames.push(FrameView { context: s.cx, candidates: t.candidates, parent: parent_id, conflicts: t.conflicts }),
            saved: s.saved.push(
                SavedView {
                    pending: s.pending,
                    edges: s.edges,
                    needed: s.needed,
                    parent: t.parent,
                    dep: t.dep,
                    features: t.features,
                    offers: t.offers,
                },
            ),
            ..s
        }
    } else {
        s
    };
    match offer_index(s.arena, t.offers, b.id, 0) {
        None => (s1, ActionView::Proceed),
        Some(j) => {
            let (c2, r) = activate_spec(s1.cx, Some(parent_id), s.arena[j as int], method_for(t.features));
            match r {
                Err(f) => (StateView { cx: c2, phase: PhaseView::Finished, ..s1 }, ActionView::Fail(f)),
                Ok(list) => {
                    let pending = match list {
                        None => s1.pending,
                        Some(l) => s1.pending + pending_of(j, l),
                    };
                    let needed = match list {
                        None => s1.needed,
                        Some(l) => s1.needed + needs_of(s.arena[j as int].summary.package_id, l),
                    };
                    (
                        StateView {
                            cx: c2,
                            edges: s1.edges.push((parent_id, t.dep.0, s.arena[j as int].summary.package_id)),
                            pending,
                            needed,
                            phase: PhaseView::Idle,
                            ..s1
                        },
                        ActionView::Proceed,
                    )
                },
            }
        },
    }
}

/// One step with the dependency's candidates: the next candidate that may
/// be activated is tried (see `scan_candidates`, `attempt`); when none is
/// left, the search goes back to the newest point that can change the
/// outcome (see `find_from`, `jump_age`) and tries the candidate found
/// there, or fails with the conflicts met.
pub open spec fn try_next(s: StateView, t: TryingView) -> (StateView, ActionView) {
    let (pos, held, res, confl) = scan_candidates(s.cx, t.candidates.remaining, t.candidates.pos, t.candidates.held, t.conflicts);
    let t1 = TryingView { candidates: RemainingView { remaining: t.candidates.remaining, pos, held }, conflicts: confl, ..t };
    match res {
        Some((b, more)) => attempt(StateView { phase: PhaseView::Trying(t1), ..s }, t1, b, more),
        None => {
            let parent_id = s.arena[t.parent as int].summary.package_id;
            let (left, found) = find_from(s.frames, jump_age(s.cx, parent_id, confl, t.backtracked));
            let frames = s.frames.take(left as int);
            let saved = s.saved.take(left as int);
            match found {
                None => (
                    StateView { frames, saved, phase: PhaseView::Finished, ..s },
                    ActionView::Fail(FailureView::Conflicts(confl)),
                ),
                Some((b, more, f)) => {
                    let k = s.saved[left as int];
                    let t2 = TryingView {
                        parent: k.parent,
                        dep: k.dep,
                        features: k.features,
                        offers: k.offers,
                        candidates: f.candidates,
                        conflicts: f.conflicts,
                        backtracked: true,
                    };
                    attempt(
                        StateView {
                            cx: f.context,
                            pending: k.pending,
                            edges: k.edges,
                            needed: k.needed,
                            frames,
                            saved,
                            phase: PhaseView::Trying(t2),
                            ..s
                        },
                        t2,
                        b,
                        more,
                    )
                },
            }
        },
    }
}

/// One step of the search, from the state and the event: the new state
/// and the action. Ready: a root is activated (with its method, no parent)
/// and the search goes on, or fails; asked to go on, it finishes with the
/// resolution when nothing is left to resolve, or else takes the last
/// dependency left and asks the registry about it. Waiting: the
/// candidates given join the offers and are tried in order. Trying: see
/// `try_next`. Any other event is refused and changes nothing.
pub open spec fn next_step(s: StateView, e: EventView) -> (StateView, ActionView) {
    match s.phase {
        PhaseView::Idle => match e {
            EventView::Root(o, m) => {
                let j = s.arena.len();
                let arena = s.arena.push(o);
                let (c2, r) = activate_spec(s.cx, None, o, m);
                match r {
                    Err(f) => (StateView { cx: c2, arena, phase: PhaseView::Finished, ..s }, ActionView::Fail(f)),
                    Ok(None) => (StateView { cx: c2, arena, ..s }, ActionView::Proceed),
                    Ok(Some(list)) => (
                        StateView {
                            cx: c2,
                            arena,
                            pending: s.pending + pending_of(j, list),
                            needed: s.needed + needs_of(o.summary.package_id, list),
                            ..s
                        },
                        ActionView::Proceed,
                    ),
                }
            },
            EventView::Proceed => if s.pending.len() == 0 {
                (
                    StateView { phase: PhaseView::Finished, ..s },
                    ActionView::Done(
                        ResolutionView { packages: s.cx.activations.map_values(|a: (PackageIdView, nat)| a.0), edges: s.edges },
                    ),
                )
            } else {
                (
                    StateView { pending: s.pending.drop_last(), phase: PhaseView::Awaiting(s.pending.last()), ..s },
                    ActionView::Query(s.pending.last().dep),
                )
            },
            EventView::Candidates(_) => (s, ActionView::Unexpected),
        },
        PhaseView::Awaiting(p) => match e {
            EventView::Candidates(os) => {
                let base = s.arena.len();
                let t = TryingView {
                    parent: p.parent,
                    dep: p.dep,
                    features: p.features,
                    offers: Seq::new(os.len(), |i: int| (base + i) as nat),
                    candidates: RemainingView { remaining: os.map_values(|o: OfferView| offer_candidate(o)), pos: 0, held: None },
                    conflicts: Seq::empty(),
                    backtracked: false,
                };
                (StateView { arena: s.arena + os, phase: PhaseView::Trying(t), ..s }, ActionView::Proceed)
            },
            _ => (s, ActionView::Unexpected),
        },
        PhaseView::Trying(t) => match e {
            EventView::Proceed => try_next(s, t),
            _ => (s, ActionView::Unexpected),
        },
        PhaseView::Finished => (s, ActionView::Unexpected),
    }
}

/// Whether a resolution found in a state is sound: its packages are the
/// active ones, no two of them are semver-compatible versions of one
/// crate, no native library is linked twice, nothing is left to resolve,
/// every dependency resolved is met by an active package, and every
/// dependency that an activated package asked for is resolved.
pub open spec fn resolution_ok(s: StateView, r: ResolutionView) -> bool {
    &&& r.packages == s.cx.activations.map_values(|a: (PackageIdView, nat)| a.0)
    &&& activations_ok(s.cx.activations)
    &&& links_distinct(s.cx.links)
    &&& s.pending.len() == 0
    &&& r.edges == s.edges
    &&& edges_active(s.cx, r.edges)
    &&& forall|k: int| 0 <= k < s.needed.len() ==> resolved_need(r.edges, #[trigger] s.needed[k])
}

/// Activating an offer keeps each native library linked once, keeps
/// active packages active, and on success leaves the offer's package
/// active.
proof fn lemma_activate_keeps(c: ContextView, parent: Option<PackageIdView>, o: OfferView, m: MethodView)
    requires
        links_distinct(c.links),
    ensures
        links_distinct(activate_spec(c, parent, o, m).0.links),
        forall|id: PackageIdView| is_active_pkg(c, id) ==> #[trigger] is_active_pkg(activate_spec(c, parent, o, m).0, id),
        activate_spec(c, parent, o, m).1 is Ok ==> is_active_pkg(activate_spec(c, parent, o, m).0, o.summary.package_id),
{
    let c2 = activate_spec(c, parent, o, m).0;
    let id = o.summary.package_id;
    if candidate_check(c, offer_candidate(o)) is None {
        lemma_flag_keeps_links_distinct(c, o.summary, o.links, m);
        let c1 = flag_activated_spec(c, o.summary, o.links, m).0;
        assert(c2.activations == c1.activations && c2.links == c1.links);
        lemma_key_index(c.activations, id);
        match key_index(c.activations, id) {
            Some(k) => {
                assert(c1.activations == c.activations);
                assert(same_package(c.activations[k].0, id));
            },
            None => {
                if activate_spec(c, parent, o, m).1 is Ok {
                    assert(c1.activations == c.activations.push((id, c.activations.len())));
                    assert(c2.activations[c.activations.len() as int].0 == id);
                }
                assert forall|x: PackageIdView| is_active_pkg(c, x) implies #[trigger] is_active_pkg(c2, x) by {
                    let i = choose|i: int| 0 <= i < c.activations.len() && same_package(#[trigger] c.activations[i].0, x);
                    if c1.activations != c.activations {
                        assert(c2.activations[i] == c.activations[i]);
                    }
                }
            },
        }
    }
}

/// Activates the offer at position `j` with the method (see
/// `activate_spec`); `parent` is the position of the package whose
/// dependency it resolves, if any.
fn activate(cx: &mut Context, arena: &Vec<Offer>, parent: Option<usize>, j: usize, method: &Method) -> (r: Result<
    Option<Vec<(Dependency, Vec<String>)>>,
    ResolveFailure,
>)
    requires
        j < arena@.len(),
        parent matches Some(p) ==> p < arena@.len(),
    ensures
        ({
            let (c, res) = activate_spec(
                old(cx)@,
                match parent {
                    Some(p) => Some(arena@[p as int].summary@.package_id),
                    None => None,
                },
                arena@[j as int]@,
                method@,
            );
            &&& final(cx)@ == c
            &&& match r {
                Ok(None) => res == Ok::<_, FailureView>(None::<Seq<((Seq<char>, bool, bool, Seq<Seq<char>>), Seq<Seq<char>>)>>),
                Ok(Some(v)) => res == Ok::<_, FailureView>(Some(resolved_view(v@))),
                Err(f) => res == Err::<Option<Seq<((Seq<char>, bool, bool, Seq<Seq<char>>), Seq<Seq<char>>)>>, _>(f@),
            }
        }),
{
    let o = &arena[j];
    let cand = Candidate { id: o.summary.package_id().duplicate(), links: clone_opt_string(&o.links) };
    assert(cand@ == offer_candidate(o@));
    match cx.check_candidate(&cand) {
        Some((a, why)) => {
            let v = vec![(a, why)];
            assert(conflicts_view(v@) =~= seq![(v@[0].0@, v@[0].1@)]);
            return Err(ResolveFailure::Conflicts(v));
        },
        None => {},
    }
    let links: Option<&str> = match &o.links {
        Some(l) => Some(l.as_str()),
        None => None,
    };
    match cx.flag_activated(&o.summary, links, method) {
        Err(ActivationError::Links(l)) => Err(ResolveFailure::Links(l)),
        Ok(true) => Ok(None),
        Ok(false) => {
            let par: Option<&Summary> = match parent {
                Some(p) => Some(&arena[p].summary),
                None => None,
            };
            match cx.resolve_features(par, &o.summary, method) {
                Err(e) => Err(ResolveFailure::Features(e)),
                Ok(v) => Ok(Some(v)),
            }
        },
    }
}

/// Adds the dependencies of the offer at position `j` to those to
/// resolve, in order.
fn push_pendings(pending: &mut Vec<Pending>, j: usize, v: Vec<(Dependency, Vec<String>)>)
    ensures
        pendings_view(final(pending)@) == pendings_view(old(pending)@) + pending_of(j as nat, resolved_view(v@)),
{
    let ghost p0 = pendings_view(pending@);
    let ghost goal = pending_of(j as nat, resolved_view(v@));
    let mut i: usize = 0;
    while i < v.len()
        invariant
            i <= v@.len(),
            goal == pending_of(j as nat, resolved_view(v@)),
            pendings_view(pending@) == p0 + goal.take(i as int),
        decreases v.len() - i,
    {
        let ghost before = pending@;
        pending.push(Pending { parent: j, dep: v[i].0.duplicate(), features: copy_strings(&v[i].1) });
        assert(pendings_view(pending@) =~= pendings_view(before).push(goal[i as int]));
        assert(goal.take(i + 1) =~= goal.take(i as int).push(goal[i as int]));
        i = i + 1;
    }
    assert(goal.take(v@.len() as int) =~= goal);
}

/// The position of the first offer among `offers` that is the package
/// (see `offer_index`).
fn find_offer(arena: &Vec<Offer>, offers: &Vec<usize>, id: &PackageId) -> (r: Option<usize>)
    requires
        positions_ok(positions_view(offers@), arena@.len()),
    ensures
        match r {
            Some(j) => j < arena@.len() && offer_index(offers_view(arena@), positions_view(offers@), id@, 0) == Some(j as nat),
            None => offer_index(offers_view(arena@), positions_view(offers@), id@, 0) is None,
        },
{
    let ghost av = offers_view(arena@);
    let ghost ov = positions_view(offers@);
    let mut i: usize = 0;
    while i < offers.len()
        invariant
            i <= offers@.len(),
            av == offers_view(arena@),
            ov == positions_view(offers@),
            positions_ok(ov, arena@.len()),
            offer_index(av, ov, id@, 0) == offer_index(av, ov, id@, i as nat),
        decreases offers.len() - i,
    {
        let k = offers[i];
        assert(ov[i as int] == k as nat);
        assert(k < arena@.len());
        if arena[k].summary.package_id().same(id) {
            return Some(k);
        }
        i = i + 1;
    }
    None
}

impl ResolveState {
    /// Whether the state holds together (see `state_ok`).
    pub closed spec fn well_formed(&self) -> bool {
        state_ok(self@)
    }

    /// A search with nothing activated, nothing to resolve, and ready for
    /// its roots; `check_public_visible_dependencies` is kept in the
    /// context.
    pub fn new(check_public_visible_dependencies: bool) -> (r: ResolveState)
        ensures
            r.well_formed(),
            r@.cx.activations.len() == 0,
            r@.cx.links.len() == 0,
            r@.arena.len() == 0,
            r@.pending.len() == 0,
            r@.frames.len() == 0,
            r@.saved.len() == 0,
            r@.edges.len() == 0,
            r@.needed.len() == 0,
            r@.phase == PhaseView::Idle,
    {
        let r = ResolveState {
            cx: Context::new(check_public_visible_dependencies),
            arena: Vec::new(),
            pending: Vec::new(),
            frames: Vec::new(),
            saved: Vec::new(),
            edges: Vec::new(),
            needed: Ghost(Seq::empty()),
            phase: Phase::Idle,
        };
        assert(r@.pending =~= Seq::empty());
        assert(r@.frames =~= Seq::empty());
        assert(r@.saved =~= Seq::empty());
        assert(r@.edges =~= Seq::empty());
        r
    }
}

/// A root package activated with its method, when ready.
fn step_root(state: &mut ResolveState, o: Offer, m: Method) -> (action: ResolveAction)
    ensures
        (final(state)@, action@) == next_step(StateView { phase: PhaseView::Idle, ..old(state)@ }, EventView::Root(o@, m@)),
{
    let ghost s0 = state@;
    let ghost ov = o@;
    state.phase = Phase::Idle;
    let j = state.arena.len();
    state.arena.push(o);
    assert(offers_view(state.arena@) =~= s0.arena.push(ov));
    let r = activate(&mut state.cx, &state.arena, None, j, &m);
    match r {
        Err(f) => {
            state.phase = Phase::Finished;
            ResolveAction::Fail(f)
        },
        Ok(None) => ResolveAction::Proceed,
        Ok(Some(v)) => {
            let ghost list = resolved_view(v@);
            push_pendings(&mut state.pending, j, v);
            state.needed = Ghost(state.needed@ + needs_of(ov.summary.package_id, list));
            ResolveAction::Proceed
        },
    }
}

/// Asked to go on when ready: the resolution when nothing is left to
/// resolve, else the registry is asked about the last dependency left.
fn step_next_dep(state: &mut ResolveState) -> (action: ResolveAction)
    ensures
        (final(state)@, action@) == next_step(StateView { phase: PhaseView::Idle, ..old(state)@ }, EventView::Proceed),
        action matches ResolveAction::Done(_) ==> activations_ok(final(state)@.cx.activations),
{
    state.phase = Phase::Idle;
    let ghost s0 = state@;
    if state.pending.len() == 0 {
        let packages = state.cx.active_ids();
        let edges = copy_edges(&state.edges);
        state.phase = Phase::Finished;
        ResolveAction::Done(Resolution { packages, edges })
    } else {
        let p = state.pending.pop().unwrap();
        assert(pendings_view(state.pending@) =~= s0.pending.drop_last());
        let d = p.dep.duplicate();
        state.phase = Phase::Awaiting(p);
        ResolveAction::Query(d)
    }
}

/// The registry's candidates for the dependency waited for: they join the
/// offers, and are tried in order.
fn step_candidates(state: &mut ResolveState, p: Pending, os: Vec<Offer>) -> (action: ResolveAction)
    ensures
        (final(state)@, action@) == next_step(
            StateView { phase: PhaseView::Awaiting(p@), ..old(state)@ },
            EventView::Candidates(offers_view(os@)),
        ),
{
    let ghost s0 = state@;
    let ghost osv = offers_view(os@);
    let base = state.arena.len();
    let mut os = os;
    state.arena.append(&mut os);
    assert(offers_view(state.arena@) =~= s0.arena + osv);
    let total = state.arena.len();
    let mut cands: Vec<Candidate> = Vec::new();
    let mut offers: Vec<usize> = Vec::new();
    let mut i: usize = base;
    while i < total
        invariant
            base <= i <= total,
            total == state.arena@.len(),
            base == s0.arena.len(),
            osv.len() == total - base,
            offers_view(state.arena@) == s0.arena + osv,
            cands@.len() == i - base,
            offers@.len() == i - base,
            forall|k: int| 0 <= k < i - base ==> (#[trigger] cands@[k])@ == offer_candidate(osv[k]),
            forall|k: int| 0 <= k < i - base ==> #[trigger] offers@[k] == base + k,
        decreases total - i,
    {
        assert(offers_view(state.arena@)[i as int] == state.arena@[i as int]@);
        assert((s0.arena + osv)[i as int] == osv[i - base]);
        cands.push(Candidate { id: state.arena[i].summary.package_id().duplicate(), links: clone_opt_string(&state.arena[i].links) });
        offers.push(i);
        i = i + 1;
    }
    let candidates = RemainingCandidates::new(&cands);
    assert(candidates@.remaining =~= osv.map_values(|o: OfferView| offer_candidate(o)));
    assert(positions_view(offers@) =~= Seq::new(osv.len(), |k: int| (base + k) as nat));
    let t = Trying {
        parent: p.parent,
        dep: p.dep,
        features: p.features,
        offers,
        candidates,
        conflicts: Vec::new(),
        backtracked: false,
    };
    assert(conflicts_view(t.conflicts@) =~= Seq::empty());
    state.phase = Phase::Trying(t);
    ResolveAction::Proceed
}

/// Trying a candidate of the dependency `t` (see `attempt`).
fn attempt_exec(state: &mut ResolveState, t: Trying, b: Candidate, more: bool) -> (action: ResolveAction)
    requires
        (t@.parent as int) < old(state)@.arena.len(),
        positions_ok(t@.offers, old(state)@.arena.len()),
    ensures
        (final(state)@, action@) == attempt(StateView { phase: PhaseView::Trying(t@), ..old(state)@ }, t@, b@, more),
{
    let ghost s0 = StateView { phase: PhaseView::Trying(t@), ..state@ };
    let parent_id = state.arena[t.parent].summary.package_id().duplicate();
    assert(parent_id@ == s0.arena[t@.parent as int].summary.package_id);
    if more {
        let frame = BacktrackFrame {
            context: state.cx.duplicate(),
            remaining_candidates: t.candidates.duplicate(),
            parent: parent_id.duplicate(),
            conflicting_activations: copy_conflicts(&t.conflicts),
        };
        let ghost fb = state.frames@;
        state.frames.push(frame);
        assert(state.frames@.map_values(|f: BacktrackFrame| f@) =~= fb.map_values(|f: BacktrackFrame| f@).push(
            FrameView { context: s0.cx, candidates: t@.candidates, parent: parent_id@, conflicts: t@.conflicts },
        ));
        let kept = Saved {
            pending: copy_pendings(&state.pending),
            edges: copy_edges(&state.edges),
            parent: t.parent,
            dep: t.dep.duplicate(),
            features: copy_strings(&t.features),
            offers: copy_positions(&t.offers),
            needed: Ghost(state.needed@),
        };
        let ghost sb = state.saved@;
        state.saved.push(kept);
        assert(state.saved@.map_values(|x: Saved| x@) =~= sb.map_values(|x: Saved| x@).push(
            SavedView {
                pending: s0.pending,
                edges: s0.edges,
                needed: s0.needed,
                parent: t@.parent,
                dep: t@.dep,
                features: t@.features,
                offers: t@.offers,
            },
        ));
    }
    let ghost s1 = state@;
    match find_offer(&state.arena, &t.offers, &b.id) {
        None => {
            state.phase = Phase::Trying(t);
            ResolveAction::Proceed
        },
        Some(j) => {
            let method = Method::Required {
                dev_deps: false,
                features: copy_strings(&t.features),
                all_features: false,
                uses_default_features: true,
            };
            assert(method@ == method_for(t@.features));
            match activate(&mut state.cx, &state.arena, Some(t.parent), j, &method) {
                Err(f) => {
                    state.phase = Phase::Finished;
                    ResolveAction::Fail(f)
                },
                Ok(list) => {
                    let id = state.arena[j].summary.package_id().duplicate();
                    let ghost eb = state.edges@;
                    state.edges.push((parent_id, t.dep.name.clone(), id));
                    assert(edges_view(state.edges@) =~= edges_view(eb).push((s0.arena[t@.parent as int].summary.package_id, t@.dep.0, s0.arena[j as int].summary.package_id)));
                    match list {
                        None => {},
                        Some(v) => {
                            let ghost list = resolved_view(v@);
                            push_pendings(&mut state.pending, j, v);
                            state.needed = Ghost(state.needed@ + needs_of(s0.arena[j as int].summary.package_id, list));
                        },
                    }
                    state.phase = Phase::Idle;
                    ResolveAction::Proceed
                },
            }
        },
    }
}

/// One step with the candidates of the dependency `t` (see `try_next`).
fn step_try(state: &mut ResolveState, t: Trying) -> (action: ResolveAction)
    requires
        state_ok(StateView { phase: PhaseView::Trying(t@), ..old(state)@ }),
    ensures
        (final(state)@, action@) == try_next(StateView { phase: PhaseView::Trying(t@), ..old(state)@ }, t@),
{
    let ghost s0 = StateView { phase: PhaseView::Trying(t@), ..state@ };
    let ghost t0 = t@;
    let mut t = t;
    let next = t.candidates.next(&mut t.conflicts, &state.cx);
    match next {
        Some((b, more)) => attempt_exec(state, t, b, more),
        None => {
            let parent_id = state.arena[t.parent].summary.package_id().duplicate();
            let ghost age = jump_age(s0.cx, parent_id@, t@.conflicts, t@.backtracked);
            let found = find_candidate(&state.cx, &mut state.frames, &parent_id, t.backtracked, &t.conflicts);
            proof {
                lemma_backjump_lands_old_enough(s0.frames, age);
            }
            let ghost fl = find_from(s0.frames, age).0;
            let left = state.frames.len();
            assert(state.frames@.map_values(|f: BacktrackFrame| f@).len() == state.frames@.len());
            assert(left == fl);
            assert(s0.saved.len() == state.saved@.len());
            match found {
                None => {
                    state.saved.truncate(left);
                    assert(state.saved@.map_values(|x: Saved| x@) =~= s0.saved.take(left as int));
                    state.phase = Phase::Finished;
                    ResolveAction::Fail(ResolveFailure::Conflicts(t.conflicts))
                },
                Some((b, more, frame)) => {
                    assert(find_from(s0.frames, age).1 is Some);
                    assert(s0.frames.len() == s0.saved.len());
                    let n_saved = state.saved.len();
                    assert(left < n_saved);
                    state.saved.truncate(left + 1);
                    let k = state.saved.pop().unwrap();
                    assert(state.saved@.map_values(|x: Saved| x@) =~= s0.saved.take(left as int));
                    assert(k@ == s0.saved[left as int]);
                    let BacktrackFrame { context, remaining_candidates, parent: _, conflicting_activations } = frame;
                    state.cx = context;
                    state.pending = k.pending;
                    state.edges = k.edges;
                    state.needed = k.needed;
                    let t2 = Trying {
                        parent: k.parent,
                        dep: k.dep,
                        features: k.features,
                        offers: k.offers,
                        candidates: remaining_candidates,
                        conflicts: conflicting_activations,
                        backtracked: true,
                    };
                    attempt_exec(state, t2, b, more)
                },
            }
        },
    }
}

/// The offer found is one of the positions.
proof fn lemma_offer_index_in(arena: Seq<OfferView>, offers: Seq<nat>, id: PackageIdView, i: nat, n: nat)
    requires
        positions_ok(offers, n),
    ensures
        offer_index(arena, offers, id, i) matches Some(j) ==> j < n,
    decreases offers.len() - i,
{
    if i < offers.len() {
        lemma_offer_index_in(arena, offers, id, i + 1, n);
    }
}

/// Adding the dependencies of an offer keeps every parent among the
/// offers.
proof fn lemma_pending_of_ok(
    ps: Seq<PendingView>,
    j: nat,
    list: Seq<((Seq<char>, bool, bool, Seq<Seq<char>>), Seq<Seq<char>>)>,
    n: nat,
)
    requires
        pendings_ok(ps, n),
        j < n,
    ensures
        pendings_ok(ps + pending_of(j, list), n),
{
    let q = ps + pending_of(j, list);
    assert forall|i: int| 0 <= i < q.len() implies (#[trigger] q[i]).parent < n by {
        if i >= ps.len() {
            assert(q[i] == pending_of(j, list)[i - ps.len()]);
        }
    }
}

/// Active packages stay active when the context changes as activating
/// an offer changes it.
proof fn lemma_edges_stay_active(c: ContextView, parent: Option<PackageIdView>, o: OfferView, m: MethodView, edges: Seq<(PackageIdView, Seq<char>, PackageIdView)>)
    requires
        links_distinct(c.links),
        edges_active(c, edges),
    ensures
        edges_active(activate_spec(c, parent, o, m).0, edges),
{
    lemma_activate_keeps(c, parent, o, m);
    let c2 = activate_spec(c, parent, o, m).0;
    assert forall|i: int| 0 <= i < edges.len() implies is_active_pkg(c2, (#[trigger] edges[i]).2) by {
        assert(is_active_pkg(c, edges[i].2));
    }
}


/// More offers received keep every dependency accounted for.
proof fn lemma_acc_grow_arena(
    arena: Seq<OfferView>,
    arena2: Seq<OfferView>,
    needed: Seq<(PackageIdView, Seq<char>)>,
    edges: Seq<(PackageIdView, Seq<char>, PackageIdView)>,
    pending: Seq<PendingView>,
    cur: Option<(nat, Seq<char>)>,
)
    requires
        accounted(arena, needed, edges, pending, cur),
        arena2.len() >= arena.len(),
        forall|i: int| 0 <= i < arena.len() ==> #[trigger] arena2[i] == arena[i],
        pendings_ok(pending, arena.len()),
        cur matches Some((p, _)) ==> p < arena.len(),
    ensures
        accounted(arena2, needed, edges, pending, cur),
{
    assert forall|k: int| 0 <= k < needed.len() implies met_or_open(arena2, #[trigger] needed[k], edges, pending, cur) by {
        assert(met_or_open(arena, needed[k], edges, pending, cur));
        if exists|i: int|
            0 <= i < pending.len() && arena[(#[trigger] pending[i]).parent as int].summary.package_id == needed[k].0
                && pending[i].dep.0 == needed[k].1 {
            let i = choose|i: int|
                0 <= i < pending.len() && arena[(#[trigger] pending[i]).parent as int].summary.package_id == needed[k].0
                    && pending[i].dep.0 == needed[k].1;
            assert(arena2[pending[i].parent as int] == arena[pending[i].parent as int]);
        }
        if let Some((p, _)) = cur {
            assert(arena2[p as int] == arena[p as int]);
        }
    }
}

/// An activation's dependencies, added to those to resolve, are accounted
/// for.
proof fn lemma_acc_push_pending(
    arena: Seq<OfferView>,
    needed: Seq<(PackageIdView, Seq<char>)>,
    edges: Seq<(PackageIdView, Seq<char>, PackageIdView)>,
    pending: Seq<PendingView>,
    cur: Option<(nat, Seq<char>)>,
    j: nat,
    list: Seq<((Seq<char>, bool, bool, Seq<Seq<char>>), Seq<Seq<char>>)>,
)
    requires
        accounted(arena, needed, edges, pending, cur),
        j < arena.len(),
    ensures
        accounted(
            arena,
            needed + needs_of(arena[j as int].summary.package_id, list),
            edges,
            pending + pending_of(j, list),
            cur,
        ),
{
    let id = arena[j as int].summary.package_id;
    let n2 = needed + needs_of(id, list);
    let p2 = pending + pending_of(j, list);
    assert forall|k: int| 0 <= k < n2.len() implies met_or_open(arena, #[trigger] n2[k], edges, p2, cur) by {
        if k < needed.len() {
            assert(n2[k] == needed[k]);
            assert(met_or_open(arena, needed[k], edges, pending, cur));
            if exists|i: int|
                0 <= i < pending.len() && arena[(#[trigger] pending[i]).parent as int].summary.package_id == needed[k].0
                    && pending[i].dep.0 == needed[k].1 {
                let i = choose|i: int|
                    0 <= i < pending.len() && arena[(#[trigger] pending[i]).parent as int].summary.package_id == needed[k].0
                        && pending[i].dep.0 == needed[k].1;
                assert(p2[i] == pending[i]);
            }
        } else {
            let m = k - needed.len();
            assert(n2[k] == (id, list[m].0.0));
            let i = pending.len() + m;
            assert(p2[i] == pending_of(j, list)[m]);
            assert(arena[p2[i].parent as int].summary.package_id == n2[k].0 && p2[i].dep.0 == n2[k].1);
        }
    }
}

/// Resolving the dependency being resolved accounts for it by a resolved
/// dependency.
proof fn lemma_acc_resolve_cur(
    arena: Seq<OfferView>,
    needed: Seq<(PackageIdView, Seq<char>)>,
    edges: Seq<(PackageIdView, Seq<char>, PackageIdView)>,
    pending: Seq<PendingView>,
    p: nat,
    d: Seq<char>,
    e: (PackageIdView, Seq<char>, PackageIdView),
)
    requires
        accounted(arena, needed, edges, pending, Some((p, d))),
        e.0 == arena[p as int].summary.package_id,
        e.1 == d,
    ensures
        accounted(arena, needed, edges.push(e), pending, None),
{
    let e2 = edges.push(e);
    assert forall|k: int| 0 <= k < needed.len() implies met_or_open(arena, #[trigger] needed[k], e2, pending, None) by {
        assert(met_or_open(arena, needed[k], edges, pending, Some((p, d))));
        if resolved_need(edges, needed[k]) {
            let i = choose|i: int| 0 <= i < edges.len() && (#[trigger] edges[i]).0 == needed[k].0 && edges[i].1 == needed[k].1;
            assert(e2[i] == edges[i]);
        } else if arena[p as int].summary.package_id == needed[k].0 && d == needed[k].1 {
            assert(e2[edges.len() as int] == e);
        }
    }
}

/// Taking the last dependency left makes it the one being resolved.
proof fn lemma_acc_take_last(
    arena: Seq<OfferView>,
    needed: Seq<(PackageIdView, Seq<char>)>,
    edges: Seq<(PackageIdView, Seq<char>, PackageIdView)>,
    pending: Seq<PendingView>,
)
    requires
        accounted(arena, needed, edges, pending, None),
        pending.len() > 0,
    ensures
        accounted(arena, needed, edges, pending.drop_last(), Some((pending.last().parent, pending.last().dep.0))),
{
    let p2 = pending.drop_last();
    let cur = Some((pending.last().parent, pending.last().dep.0));
    assert forall|k: int| 0 <= k < needed.len() implies met_or_open(arena, #[trigger] needed[k], edges, p2, cur) by {
        assert(met_or_open(arena, needed[k], edges, pending, None));
        if exists|i: int|
            0 <= i < pending.len() && arena[(#[trigger] pending[i]).parent as int].summary.package_id == needed[k].0
                && pending[i].dep.0 == needed[k].1 {
            let i = choose|i: int|
                0 <= i < pending.len() && arena[(#[trigger] pending[i]).parent as int].summary.package_id == needed[k].0
                    && pending[i].dep.0 == needed[k].1;
            if i < p2.len() {
                assert(p2[i] == pending[i]);
            }
        }
    }
}

/// With nothing left to resolve and nothing being resolved, every
/// dependency asked for is resolved.
proof fn lemma_acc_done(
    arena: Seq<OfferView>,
    needed: Seq<(PackageIdView, Seq<char>)>,
    edges: Seq<(PackageIdView, Seq<char>, PackageIdView)>,
    pending: Seq<PendingView>,
)
    requires
        accounted(arena, needed, edges, pending, None),
        pending.len() == 0,
    ensures
        forall|k: int| 0 <= k < needed.len() ==> resolved_need(edges, #[trigger] needed[k]),
{
    assert forall|k: int| 0 <= k < needed.len() implies resolved_need(edges, #[trigger] needed[k]) by {
        assert(met_or_open(arena, needed[k], edges, pending, None));
    }
}

/// More offers received keep the dependencies accounted for at every
/// point to go back to.
proof fn lemma_saved_grow_arena(s: StateView, arena2: Seq<OfferView>)
    requires
        state_ok(s),
        arena2.len() >= s.arena.len(),
        forall|i: int| 0 <= i < s.arena.len() ==> #[trigger] arena2[i] == s.arena[i],
    ensures
        forall|i: int|
            0 <= i < s.saved.len() ==> accounted(
                arena2,
                (#[trigger] s.saved[i]).needed,
                s.saved[i].edges,
                s.saved[i].pending,
                Some((s.saved[i].parent, s.saved[i].dep.0)),
            ),
{
    assert forall|i: int| 0 <= i < s.saved.len() implies accounted(
        arena2,
        (#[trigger] s.saved[i]).needed,
        s.saved[i].edges,
        s.saved[i].pending,
        Some((s.saved[i].parent, s.saved[i].dep.0)),
    ) by {
        lemma_acc_grow_arena(s.arena, arena2, s.saved[i].needed, s.saved[i].edges, s.saved[i].pending, Some((s.saved[i].parent, s.saved[i].dep.0)));
    }
}

/// Trying a candidate keeps the state together.
proof fn lemma_attempt_ok(s: StateView, t: TryingView, b: CandidateView, more: bool)
    requires
        state_ok(s),
        s.phase == PhaseView::Trying(t),
    ensures
        state_ok(attempt(s, t, b, more).0),
{
    let n = s.arena.len();
    let parent_id = s.arena[t.parent as int].summary.package_id;
    let s1 = if more {
        StateView {
            frames: s.frames.push(FrameView { context: s.cx, candidates: t.candidates, parent: parent_id, conflicts: t.conflicts }),
            saved: s.saved.push(
                SavedView {
                    pending: s.pending,
                    edges: s.edges,
                    needed: s.needed,
                    parent: t.parent,
                    dep: t.dep,
                    features: t.features,
                    offers: t.offers,
                },
            ),
            ..s
        }
    } else {
        s
    };
    assert(accounted(s.arena, s.needed, s.edges, s.pending, Some((t.parent, t.dep.0))));
    assert(state_ok(s1)) by {
        if more {
            assert forall|i: int| 0 <= i < s1.saved.len() implies {
                &&& pendings_ok((#[trigger] s1.saved[i]).pending, n)
                &&& s1.saved[i].parent < n
                &&& positions_ok(s1.saved[i].offers, n)
                &&& links_distinct(s1.frames[i].context.links)
                &&& edges_active(s1.frames[i].context, s1.saved[i].edges)
                &&& accounted(s1.arena, s1.saved[i].needed, s1.saved[i].edges, s1.saved[i].pending, Some((s1.saved[i].parent, s1.saved[i].dep.0)))
            } by {
                if i < s.saved.len() {
                    assert(s1.saved[i] == s.saved[i]);
                    assert(s1.frames[i] == s.frames[i]);
                }
            }
        }
    }
    match offer_index(s.arena, t.offers, b.id, 0) {
        None => {},
        Some(j) => {
            lemma_offer_index_in(s.arena, t.offers, b.id, 0, n);
            let m = method_for(t.features);
            lemma_activate_keeps(s1.cx, Some(parent_id), s.arena[j as int], m);
            lemma_edges_stay_active(s1.cx, Some(parent_id), s.arena[j as int], m, s1.edges);
            let (c2, r) = activate_spec(s1.cx, Some(parent_id), s.arena[j as int], m);
            match r {
                Err(_) => {},
                Ok(list) => {
                    let e = (parent_id, t.dep.0, s.arena[j as int].summary.package_id);
                    lemma_acc_resolve_cur(s.arena, s1.needed, s1.edges, s1.pending, t.parent, t.dep.0, e);
                    let e2 = s1.edges.push(e);
                    assert forall|i: int| 0 <= i < e2.len() implies is_active_pkg(c2, (#[trigger] e2[i]).2) by {
                        if i < s1.edges.len() {
                            assert(e2[i] == s1.edges[i]);
                        }
                    }
                    match list {
                        None => {},
                        Some(l) => {
                            lemma_pending_of_ok(s1.pending, j, l, n);
                            lemma_acc_push_pending(s.arena, s1.needed, e2, s1.pending, None, j, l);
                        },
                    }
                },
            }
        },
    }
}

/// A step with the dependency's candidates keeps the state together.
proof fn lemma_try_ok(s: StateView, t: TryingView)
    requires
        state_ok(s),
        s.phase == PhaseView::Trying(t),
    ensures
        state_ok(try_next(s, t).0),
{
    let n = s.arena.len();
    let (pos, held, res, confl) = scan_candidates(s.cx, t.candidates.remaining, t.candidates.pos, t.candidates.held, t.conflicts);
    let t1 = TryingView { candidates: RemainingView { remaining: t.candidates.remaining, pos, held }, conflicts: confl, ..t };
    match res {
        Some((b, more)) => {
            lemma_attempt_ok(StateView { phase: PhaseView::Trying(t1), ..s }, t1, b, more);
        },
        None => {
            let parent_id = s.arena[t.parent as int].summary.package_id;
            let age = jump_age(s.cx, parent_id, confl, t.backtracked);
            lemma_backjump_lands_old_enough(s.frames, age);
            let (left, found) = find_from(s.frames, age);
            let frames = s.frames.take(left as int);
            let saved = s.saved.take(left as int);
            match found {
                None => {
                    assert forall|i: int| 0 <= i < saved.len() implies {
                        &&& pendings_ok((#[trigger] saved[i]).pending, n)
                        &&& saved[i].parent < n
                        &&& positions_ok(saved[i].offers, n)
                        &&& links_distinct(frames[i].context.links)
                        &&& edges_active(frames[i].context, saved[i].edges)
                        &&& accounted(s.arena, saved[i].needed, saved[i].edges, saved[i].pending, Some((saved[i].parent, saved[i].dep.0)))
                    } by {
                        assert(saved[i] == s.saved[i]);
                        assert(frames[i] == s.frames[i]);
                    }
                },
                Some((b, more, f)) => {
                    let k = s.saved[left as int];
                    let t2 = TryingView {
                        parent: k.parent,
                        dep: k.dep,
                        features: k.features,
                        offers: k.offers,
                        candidates: f.candidates,
                        conflicts: f.conflicts,
                        backtracked: true,
                    };
                    let s2 = StateView {
                        cx: f.context,
                        pending: k.pending,
                        edges: k.edges,
                        needed: k.needed,
                        frames,
                        saved,
                        phase: PhaseView::Trying(t2),
                        ..s
                    };
                    assert(f.context == s.frames[left as int].context);
                    assert(accounted(s.arena, k.needed, k.edges, k.pending, Some((k.parent, k.dep.0))));
                    assert forall|i: int| 0 <= i < saved.len() implies {
                        &&& pendings_ok((#[trigger] saved[i]).pending, n)
                        &&& saved[i].parent < n
                        &&& positions_ok(saved[i].offers, n)
                        &&& links_distinct(frames[i].context.links)
                        &&& edges_active(frames[i].context, saved[i].edges)
                        &&& accounted(s.arena, saved[i].needed, saved[i].edges, saved[i].pending, Some((saved[i].parent, saved[i].dep.0)))
                    } by {
                        assert(saved[i] == s.saved[i]);
                        assert(frames[i] == s.frames[i]);
                    }
                    assert(state_ok(s2));
                    lemma_attempt_ok(s2, t2, b, more);
                },
            }
        },
    }
}

/// Every step keeps the state together: whatever the event, the state
/// after a step holds together when the state before did.
pub proof fn lemma_step_keeps_ok(s: StateView, e: EventView)
    requires
        state_ok(s),
    ensures
        state_ok(next_step(s, e).0),
{
    let n = s.arena.len();
    match s.phase {
        PhaseView::Idle => match e {
            EventView::Root(o, m) => {
                let arena2 = s.arena.push(o);
                lemma_saved_grow_arena(s, arena2);
                lemma_acc_grow_arena(s.arena, arena2, s.needed, s.edges, s.pending, None);
                lemma_activate_keeps(s.cx, None, o, m);
                lemma_edges_stay_active(s.cx, None, o, m, s.edges);
                let (c2, r) = activate_spec(s.cx, None, o, m);
                match r {
                    Ok(Some(list)) => {
                        lemma_pending_of_ok(s.pending, n, list, n + 1);
                        lemma_acc_push_pending(arena2, s.needed, s.edges, s.pending, None, n, list);
                    },
                    _ => {},
                }
            },
            EventView::Proceed => {
                if s.pending.len() > 0 {
                    assert(s.pending.last() == s.pending[s.pending.len() - 1]);
                    lemma_acc_take_last(s.arena, s.needed, s.edges, s.pending);
                }
            },
            _ => {},
        },
        PhaseView::Awaiting(p) => match e {
            EventView::Candidates(os) => {
                let offers = Seq::new(os.len(), |i: int| (n + i) as nat);
                assert(positions_ok(offers, n + os.len()));
                let arena2 = s.arena + os;
                lemma_saved_grow_arena(s, arena2);
                lemma_acc_grow_arena(s.arena, arena2, s.needed, s.edges, s.pending, Some((p.parent, p.dep.0)));
            },
            _ => {},
        },
        PhaseView::Trying(t) => match e {
            EventView::Proceed => lemma_try_ok(s, t),
            _ => {},
        },
        PhaseView::Finished => {},
    }
}

/// One step of the search (see `next_step`): the new state and the
/// action follow from the state and the event; a resolution handed out is
/// sound (see `resolution_ok`).
pub fn resolve_step(state: &mut ResolveState, event: ResolveEvent) -> (action: ResolveAction)
    requires
        old(state).well_formed(),
    ensures
        final(state).well_formed(),
        (final(state)@, action@) == next_step(old(state)@, event@),
        action matches ResolveAction::Done(res) ==> resolution_ok(final(state)@, res@),
{
    let ghost s0 = state@;
    let ghost e0 = event@;
    proof {
        lemma_step_keeps_ok(s0, e0);
        if s0.phase == PhaseView::Idle && s0.pending.len() == 0 {
            lemma_acc_done(s0.arena, s0.needed, s0.edges, s0.pending);
        }
    }
    let mut phase = Phase::Finished;
    std::mem::swap(&mut phase, &mut state.phase);
    assert(s0 == StateView { phase: phase@, ..state@ });
    match phase {
        Phase::Idle => match event {
            ResolveEvent::Root(o, m) => step_root(state, o, m),
            ResolveEvent::Proceed => step_next_dep(state),
            ResolveEvent::Candidates(_) => {
                state.phase = Phase::Idle;
                assert(state@ == s0);
                ResolveAction::Unexpected
            },
        },
        Phase::Awaiting(p) => match event {
            ResolveEvent::Candidates(os) => step_candidates(state, p, os),
            _ => {
                state.phase = Phase::Awaiting(p);
                assert(state@ == s0);
                ResolveAction::Unexpected
            },
        },
        Phase::Trying(t) => match event {
            ResolveEvent::Proceed => step_try(state, t),
            _ => {
                state.phase = Phase::Trying(t);
                assert(state@ == s0);
                ResolveAction::Unexpected
            },
        },
        Phase::Finished => {
            assert(state@ == s0);
            ResolveAction::Unexpected
        },
    }
}

/// Whether every candidate before the `i`-th is kept out in the context.
pub open spec fn all_kept_out(c: ContextView, rem: Seq<CandidateView>, i: int) -> bool {
    forall|k: int| 0 <= k < i ==> (#[trigger] candidate_check(c, rem[k])) is Some
}

/// The candidates are tried in the order given, the first one that may be
/// activated first: scanning fresh candidates gives the first candidate
/// that no active package keeps out (with whether another may follow),
/// and nothing only when every candidate is kept out.
pub proof fn lemma_first_fit_first(
    c: ContextView,
    rem: Seq<CandidateView>,
    i: nat,
    conflicts: Seq<(PackageIdView, ConflictReasonView)>,
)
    requires
        i <= rem.len(),
        all_kept_out(c, rem, i as int),
    ensures
        scan_candidates(c, rem, i, None, conflicts).2 matches Some((b, _)) ==> exists|k: int|
            0 <= k < rem.len() && rem[k] == b && candidate_check(c, b) is None && all_kept_out(c, rem, k),
        scan_candidates(c, rem, i, None, conflicts).2 is None ==> all_kept_out(c, rem, rem.len() as int),
    decreases rem.len() - i,
{
    if i < rem.len() {
        match candidate_check(c, rem[i as int]) {
            Some((a, why)) => {
                assert(all_kept_out(c, rem, (i + 1) as int)) by {
                    assert forall|k: int| 0 <= k < i + 1 implies (#[trigger] candidate_check(c, rem[k])) is Some by {
                        if k < i {
                            assert(all_kept_out(c, rem, i as int));
                        }
                    }
                }
                lemma_first_fit_first(c, rem, i + 1, record_conflict(conflicts, a, why));
            },
            None => {
                lemma_held_comes_back(c, rem, i + 1, rem[i as int], conflicts);
            },
        }
    }
}

/// Once a candidate is held back while the rest are scanned, that one is
/// the candidate handed out.
proof fn lemma_held_comes_back(
    c: ContextView,
    rem: Seq<CandidateView>,
    i: nat,
    h: CandidateView,
    conflicts: Seq<(PackageIdView, ConflictReasonView)>,
)
    ensures
        scan_candidates(c, rem, i, Some(h), conflicts).2 matches Some((b, _)) && b == h,
    decreases rem.len() - i,
{
    if i < rem.len() {
        match candidate_check(c, rem[i as int]) {
            Some((a, why)) => lemma_held_comes_back(c, rem, i + 1, h, record_conflict(conflicts, a, why)),
            None => {},
        }
    }
}

} // verus!
