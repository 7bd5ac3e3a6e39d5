//! Handles and per-scope records.
use vstd::prelude::*;
use std::collections::HashMap;
use elsa::FrozenVec;
use crate::nodes::{frozen_items, frozen_new};
use crate::hydration::{
    HydrationContext, NodeMark, PendingFragment, SharedContext, advanced, bump, closes_at, decimal,
    fragment_key, fragments_insert, is_child_of, marker_span, session_key,
};
use crate::runtime::{
    Runtime, allocated, dispose_spec, resources_below, suppressed, with_tracking,
};

verus! {

/// Opaque key of a scope inside its runtime's arena. Keys are handed out
/// from a counter and never reused.
#[derive(Copy, Clone, Debug, PartialEq, Eq, Hash, Structural)]
pub struct ScopeId {
    pub key: u64,
}

/// Copyable handle to one scope of a runtime.
#[derive(Copy, Clone, Debug, PartialEq, Eq, Hash, Structural)]
pub struct Scope {
    pub id: ScopeId,
}

/// Index of a signal inside its scope's signal container.
#[derive(Copy, Clone, Debug, PartialEq, Eq, Hash, Structural)]
pub struct SignalId(pub usize);

/// Index of an effect inside its scope's effect container.
#[derive(Copy, Clone, Debug, PartialEq, Eq, Hash, Structural)]
pub struct EffectId(pub usize);

/// Index of a resource inside its scope's resource container.
#[derive(Copy, Clone, Debug, PartialEq, Eq, Hash, Structural)]
pub struct ResourceId(pub usize);

/// A resource named across the whole tree: its scope and its index there.
#[derive(Copy, Clone, Debug, PartialEq, Eq, Hash, Structural)]
pub struct StreamingResourceId {
    pub scope: ScopeId,
    pub resource: ResourceId,
}

/// What disposing a scope asks its collaborators to do, in order.
#[derive(Copy, Clone, Debug, PartialEq, Eq, Structural)]
pub enum DisposalEvent {
    /// Sever the subscriptions of an effect of a disposed scope.
    ClearDependencies { scope: ScopeId, effect: EffectId, node: u64 },
    /// Run the cleanup registered under this token.
    Cleanup { token: u64 },
}

/// The record a runtime keeps for one live scope. Node payloads are the
/// collaborators' handles; cleanups are tokens that name callbacks.
pub struct ScopeState {
    pub parent: Option<Scope>,
    pub contexts: HashMap<u64, u64>,
    pub children: Vec<ScopeId>,
    pub signals: FrozenVec<u64>,
    pub effects: FrozenVec<u64>,
    pub resources: FrozenVec<u64>,
    pub cleanups: Vec<u64>,
}

/// What a scope record holds, as mathematical values.
pub ghost struct ScopeView {
    pub parent: Option<Scope>,
    pub contexts: Map<u64, u64>,
    pub children: Seq<ScopeId>,
    pub signals: Seq<u64>,
    pub effects: Seq<u64>,
    pub resources: Seq<u64>,
    pub cleanups: Seq<u64>,
}

impl View for ScopeState {
    type V = ScopeView;

    open spec fn view(&self) -> ScopeView {
        ScopeView {
            parent: self.parent,
            contexts: self.contexts@,
            children: self.children@,
            signals: frozen_items(self.signals),
            effects: frozen_items(self.effects),
            resources: frozen_items(self.resources),
            cleanups: self.cleanups@,
        }
    }
}

/// The record of a freshly allocated scope.
pub open spec fn empty_scope(parent: Option<Scope>) -> ScopeView {
    ScopeView {
        parent,
        contexts: Map::empty(),
        children: Seq::empty(),
        signals: Seq::empty(),
        effects: Seq::empty(),
        resources: Seq::empty(),
        cleanups: Seq::empty(),
    }
}

impl ScopeState {
    pub fn new(parent: Option<Scope>) -> (r: ScopeState)
        ensures
            r@ == empty_scope(parent),
    {
        let r = ScopeState {
            parent,
            contexts: HashMap::new(),
            children: Vec::new(),
            signals: frozen_new(),
            effects: frozen_new(),
            resources: frozen_new(),
            cleanups: Vec::new(),
        };
        assert(r@.contexts =~= Map::<u64, u64>::empty());
        r
    }
}

/// Disposes exactly one scope when consumed; disposing it again is a no-op.
#[derive(Copy, Clone, Debug, PartialEq, Eq, Structural)]
pub struct ScopeDisposer {
    pub id: ScopeId,
}

/// `rt` with its correlation session replaced by `sc`.
pub open spec fn with_session(rt: Runtime, sc: Option<SharedContext>) -> Runtime {
    Runtime { shared_context: sc, ..rt }
}

/// `rt` with the context of its correlation session, if there is one, set
/// to `c`.
pub open spec fn restore_context(rt: Runtime, c: HydrationContext) -> Runtime {
    match rt.shared_context {
        Some(sc) => with_session(rt, Some(SharedContext { context: Some(c), ..sc })),
        None => rt,
    }
}

/// `x` is a runtime that `with_next_context` may hand its function when
/// called on `rt`: tracking suppressed and, when the session has a current
/// namespace, that namespace replaced by its next child.
pub open spec fn entered(rt: Runtime, x: Runtime) -> bool {
    match rt.shared_context {
        Some(sc) => match sc.context {
            Some(c) => {
                &&& x.shared_context.is_some()
                &&& x.shared_context.unwrap().context.is_some()
                &&& is_child_of(x.shared_context.unwrap().context.unwrap(), c)
                &&& x == with_session(
                    suppressed(rt),
                    Some(SharedContext { context: x.shared_context.unwrap().context, ..sc }),
                )
            },
            None => x == suppressed(rt),
        },
        None => x == suppressed(rt),
    }
}

/// `after` is session `before` once one correlation key was drawn from it;
/// a missing session is started first.
pub open spec fn key_drawn(before: Option<SharedContext>, after: SharedContext) -> bool {
    match before {
        Some(s) => after == advanced(s),
        None => after.id == 1 && after.context.is_none() && after.pending_fragments@.len() == 0,
    }
}

/// The key that the next request on a runtime with session `sc` returns.
pub open spec fn next_key_of(sc: Option<SharedContext>) -> Seq<char> {
    match sc {
        Some(s) => session_key(s),
        None => decimal(0),
    }
}

/// The ordinal that the next correlation key will carry.
pub open spec fn next_ordinal(sc: Option<SharedContext>) -> u64 {
    match sc {
        Some(s) => s.id,
        None => 0,
    }
}

impl Scope {
    pub fn id(&self) -> (r: ScopeId)
        ensures
            r == self.id,
    {
        self.id
    }

    /// Creates a child scope of this one, runs `f` in it, and returns the
    /// child's disposer.
    pub fn child_scope<F: FnOnce(Scope, Runtime) -> Runtime>(self, rt: &mut Runtime, f: F) -> (r:
        ScopeDisposer)
        requires
            old(rt).wf(),
            old(rt).can_allocate(),
            forall|s: Scope, x: Runtime| x.wf() ==> f.requires((s, x)),
        ensures
            r.id.key == old(rt).next_key,
            exists|mid: Runtime|
                allocated(*old(rt), mid, Some(self), r.id) && mid.wf() && f.ensures(
                    (Scope { id: r.id }, mid),
                    *final(rt),
                ),
    {
        rt.create_scope(f, Some(self))
    }

    /// Runs `f` with dependency tracking suppressed; the tracking flag
    /// afterwards is what it was before.
    pub fn untrack<T, F: FnOnce(Runtime) -> (T, Runtime)>(&self, rt: &mut Runtime, f: F) -> (r: T)
        requires
            f.requires((suppressed(*old(rt)),)),
        ensures
            final(rt).tracking_suppressed == old(rt).tracking_suppressed,
            exists|out: Runtime|
                f.ensures((suppressed(*old(rt)),), (r, out)) && *final(rt) == with_tracking(
                    out,
                    old(rt).tracking_suppressed,
                ),
    {
        rt.untrack(f)
    }

    /// Disposes this scope and, first, all its descendants.
    pub fn dispose(self, rt: &mut Runtime)
        requires
            old(rt).wf(),
        ensures
            final(rt).wf(),
            final(rt).arena() == dispose_spec(old(rt).arena(), self.id.key).0,
            final(rt).disposal_log@ == old(rt).disposal_log@ + dispose_spec(
                old(rt).arena(),
                self.id.key,
            ).1,
            final(rt).next_key == old(rt).next_key,
            final(rt).tracking_suppressed == old(rt).tracking_suppressed,
            final(rt).shared_context == old(rt).shared_context,
    {
        rt.dispose_scope(self.id)
    }

    /// Whether a correlation session is active.
    pub fn is_hydrating(&self, rt: &Runtime) -> (r: bool)
        ensures
            r == rt.shared_context.is_some(),
    {
        rt.shared_context.is_some()
    }

    /// Leaves the current correlation context, keeping the session.
    pub fn end_hydration(&self, rt: &mut Runtime)
        ensures
            *final(rt) == match old(rt).shared_context {
                Some(sc) => with_session(*old(rt), Some(SharedContext { context: None, ..sc })),
                None => *old(rt),
            },
    {
        let mut sco: Option<SharedContext> = None;
        std::mem::swap(&mut rt.shared_context, &mut sco);
        match sco {
            Some(mut sc) => {
                sc.context = None;
                rt.shared_context = Some(sc);
            },
            None => {},
        }
    }

    /// The next correlation key: the ordinal of this request in the
    /// session, in decimal. A session is started when none is active, so
    /// the first key of a runtime is `"0"`.
    pub fn next_hydration_key(&self, rt: &mut Runtime) -> (r: String)
        ensures
            r@ == next_key_of(old(rt).shared_context),
            final(rt).shared_context.is_some(),
            key_drawn(old(rt).shared_context, final(rt).shared_context.unwrap()),
            *final(rt) == with_session(*old(rt), final(rt).shared_context),
    {
        let mut sco: Option<SharedContext> = None;
        std::mem::swap(&mut rt.shared_context, &mut sco);
        let mut sc = match sco {
            Some(sc) => sc,
            None => SharedContext::new(),
        };
        let r = sc.next_hydration_key();
        rt.shared_context = Some(sc);
        r
    }

    /// Runs `f` untracked inside the next child namespace of the session's
    /// current one, then puts back the current namespace (counting the
    /// child); without one it just runs `f` untracked. Keys that `f` draws
    /// inside the child leave the keys drawn afterwards unchanged.
    pub fn with_next_context<T, F: FnOnce(Runtime) -> (T, Runtime)>(&self, rt: &mut Runtime, f: F) -> (r: T)
        requires
            forall|x: Runtime| entered(*old(rt), x) ==> f.requires((x,)),
        ensures
            exists|x: Runtime, out: Runtime|
                entered(*old(rt), x) && f.ensures((x,), (r, out)) && *final(rt) == match old(
                    rt,
                ).shared_context {
                    Some(sc) => match sc.context {
                        Some(c) => restore_context(
                            with_tracking(out, old(rt).tracking_suppressed),
                            HydrationContext { children: bump(c.children), ..c },
                        ),
                        None => with_tracking(out, old(rt).tracking_suppressed),
                    },
                    None => with_tracking(out, old(rt).tracking_suppressed),
                },
            match old(rt).shared_context {
                Some(sc) => match sc.context {
                    Some(c) => final(rt).shared_context.is_some() ==> session_key(
                        final(rt).shared_context.unwrap(),
                    ) == c.prefix@ + decimal(c.count as nat),
                    None => true,
                },
                None => true,
            },
    {
        let mut sco: Option<SharedContext> = None;
        std::mem::swap(&mut rt.shared_context, &mut sco);
        match sco {
            Some(mut sc) => {
                let mut co: Option<HydrationContext> = None;
                std::mem::swap(&mut sc.context, &mut co);
                match co {
                    Some(mut c) => {
                        let next = c.next_hydration_context();
                        sc.context = Some(next);
                        rt.shared_context = Some(sc);
                        let ghost x = suppressed(*rt);
                        assert(entered(*old(rt), x));
                        let r = rt.untrack(f);
                        let ghost mid = *rt;
                        let mut sco2: Option<SharedContext> = None;
                        std::mem::swap(&mut rt.shared_context, &mut sco2);
                        match sco2 {
                            Some(mut sc2) => {
                                sc2.context = Some(c);
                                rt.shared_context = Some(sc2);
                            },
                            None => {},
                        }
                        assert(*rt == restore_context(mid, c));
                        r
                    },
                    None => {
                        sc.context = None;
                        rt.shared_context = Some(sc);
                        assert(*rt == *old(rt));
                        assert(entered(*old(rt), suppressed(*rt)));
                        rt.untrack(f)
                    },
                }
            },
            None => {
                assert(entered(*old(rt), suppressed(*rt)));
                rt.untrack(f)
            },
        }
    }

    /// Every resource of every live scope of the runtime.
    pub fn all_resources(&self, rt: &Runtime) -> (r: Vec<StreamingResourceId>)
        ensures
            r@ == resources_below(rt.arena(), rt.next_key as nat),
    {
        rt.all_resources()
    }

    /// The key of the fragment that the next correlation key would open;
    /// `"0f"` without a session.
    pub fn current_fragment_key(&self, rt: &Runtime) -> (r: String)
        ensures
            r@ == decimal(next_ordinal(rt.shared_context) as nat) + seq!['f'],
    {
        match &rt.shared_context {
            Some(sc) => sc.current_fragment_key(),
            None => fragment_key(0),
        }
    }
}

impl Scope {
    /// Registers, when a correlation session is active, the fragment `key`
    /// whose content the callback named `resolver` produces once the
    /// asynchronous results it waits on are in: the effect node `watcher`,
    /// which signals when nothing is pending any more, is pushed onto this
    /// scope, and a fragment already under `key` is replaced. Without a
    /// session nothing happens.
    pub fn register_suspense(&self, rt: &mut Runtime, key: String, resolver: u64, watcher: u64)
        requires
            old(rt).wf(),
        ensures
            final(rt).wf(),
            final(rt).next_key == old(rt).next_key,
            final(rt).tracking_suppressed == old(rt).tracking_suppressed,
            final(rt).disposal_log@ == old(rt).disposal_log@,
            match old(rt).shared_context {
                Some(sc) => {
                    &&& final(rt).arena() == if old(rt).is_live(self.id) {
                        old(rt).arena().insert(
                            self.id.key,
                            ScopeView {
                                effects: old(rt).arena()[self.id.key].effects.push(watcher),
                                ..old(rt).arena()[self.id.key]
                            },
                        )
                    } else {
                        old(rt).arena()
                    }
                    &&& final(rt).shared_context.is_some()
                    &&& final(rt).shared_context.unwrap().id == sc.id
                    &&& final(rt).shared_context.unwrap().context == sc.context
                    &&& final(rt).shared_context.unwrap().pending_fragments@ == fragments_insert(
                        sc.pending_fragments@,
                        PendingFragment { key, resolver },
                    )
                },
                None => final(rt).arena() == old(rt).arena() && final(rt).shared_context.is_none(),
            },
    {
        let mut sco: Option<SharedContext> = None;
        std::mem::swap(&mut rt.shared_context, &mut sco);
        match sco {
            Some(mut sc) => {
                rt.push_effect(self.id, watcher);
                sc.insert_fragment(PendingFragment { key, resolver });
                rt.shared_context = Some(sc);
            },
            None => {},
        }
    }

    /// Takes every pending fragment out of the session, in registration
    /// order, leaving none; without a session there are none.
    pub fn pending_fragments(&self, rt: &mut Runtime) -> (r: Vec<PendingFragment>)
        ensures
            *final(rt) == with_session(*old(rt), final(rt).shared_context),
            match old(rt).shared_context {
                Some(sc) => {
                    &&& r@ == sc.pending_fragments@
                    &&& final(rt).shared_context.is_some()
                    &&& final(rt).shared_context.unwrap().id == sc.id
                    &&& final(rt).shared_context.unwrap().context == sc.context
                    &&& final(rt).shared_context.unwrap().pending_fragments@.len() == 0
                },
                None => r@.len() == 0 && final(rt).shared_context.is_none(),
            },
    {
        let mut sco: Option<SharedContext> = None;
        std::mem::swap(&mut rt.shared_context, &mut sco);
        match sco {
            Some(mut sc) => {
                let mut taken: Vec<PendingFragment> = Vec::new();
                std::mem::swap(&mut sc.pending_fragments, &mut taken);
                rt.shared_context = Some(sc);
                taken
            },
            None => Vec::new(),
        }
    }

    /// Appends a signal node to this scope; see `Runtime::push_signal`.
    pub fn push_signal(&self, rt: &mut Runtime, node: u64) -> (r: SignalId)
        requires
            old(rt).wf(),
        ensures
            final(rt).wf(),
            final(rt).arena() == if old(rt).is_live(self.id) {
                old(rt).arena().insert(
                    self.id.key,
                    ScopeView {
                        signals: old(rt).arena()[self.id.key].signals.push(node),
                        ..old(rt).arena()[self.id.key]
                    },
                )
            } else {
                old(rt).arena()
            },
            r.0 == if old(rt).is_live(self.id) {
                old(rt).arena()[self.id.key].signals.len()
            } else {
                0
            },
            final(rt).next_key == old(rt).next_key,
            final(rt).tracking_suppressed == old(rt).tracking_suppressed,
            final(rt).shared_context == old(rt).shared_context,
            final(rt).disposal_log@ == old(rt).disposal_log@,
    {
        rt.push_signal(self.id, node)
    }

    /// Appends an effect node to this scope; see `Runtime::push_effect`.
    pub fn push_effect(&self, rt: &mut Runtime, node: u64) -> (r: EffectId)
        requires
            old(rt).wf(),
        ensures
            final(rt).wf(),
            final(rt).arena() == if old(rt).is_live(self.id) {
                old(rt).arena().insert(
                    self.id.key,
                    ScopeView {
                        effects: old(rt).arena()[self.id.key].effects.push(node),
                        ..old(rt).arena()[self.id.key]
                    },
                )
            } else {
                old(rt).arena()
            },
            r.0 == if old(rt).is_live(self.id) {
                old(rt).arena()[self.id.key].effects.len()
            } else {
                0
            },
            final(rt).next_key == old(rt).next_key,
            final(rt).tracking_suppressed == old(rt).tracking_suppressed,
            final(rt).shared_context == old(rt).shared_context,
            final(rt).disposal_log@ == old(rt).disposal_log@,
    {
        rt.push_effect(self.id, node)
    }

    /// Appends a resource node to this scope; see `Runtime::push_resource`.
    pub fn push_resource(&self, rt: &mut Runtime, node: u64) -> (r: ResourceId)
        requires
            old(rt).wf(),
        ensures
            final(rt).wf(),
            final(rt).arena() == if old(rt).is_live(self.id) {
                old(rt).arena().insert(
                    self.id.key,
                    ScopeView {
                        resources: old(rt).arena()[self.id.key].resources.push(node),
                        ..old(rt).arena()[self.id.key]
                    },
                )
            } else {
                old(rt).arena()
            },
            r.0 == if old(rt).is_live(self.id) {
                old(rt).arena()[self.id.key].resources.len()
            } else {
                0
            },
            final(rt).next_key == old(rt).next_key,
            final(rt).tracking_suppressed == old(rt).tracking_suppressed,
            final(rt).shared_context == old(rt).shared_context,
            final(rt).disposal_log@ == old(rt).disposal_log@,
    {
        rt.push_resource(self.id, node)
    }
}

impl Scope {
    /// The marked range that starts at the first of the sibling nodes
    /// `marks`: without a correlation session nothing is collected, `(0, 0)`;
    /// with one, the index of the last node visited and how many nodes were
    /// collected, as `marker_span` gives them.
    pub fn get_next_marker(&self, rt: &Runtime, marks: &Vec<NodeMark>) -> (r: (usize, usize))
        requires
            0 < marks@.len() <= i64::MAX,
        ensures
            rt.shared_context.is_none() ==> r == (0usize, 0usize),
            rt.shared_context.is_some() ==> ({
                let (end, taken) = r;
                ||| (end < marks@.len() && closes_at(marks@, end as int) && taken == end + 1
                    && forall|j: int| 0 <= j < end ==> !closes_at(marks@, j))
                ||| (end == marks@.len() - 1 && taken == marks@.len() && forall|j: int|
                    0 <= j < marks@.len() ==> !closes_at(marks@, j))
            }),
    {
        if rt.shared_context.is_some() {
            marker_span(marks)
        } else {
            (0, 0)
        }
    }

    /// The correlation key under which a server-rendered element for the
    /// next template may be waiting: drawn only while a session with a
    /// current context is active; otherwise `None`, and the template is to
    /// be cloned.
    pub fn get_next_element(&self, rt: &mut Runtime) -> (r: Option<String>)
        ensures
            match old(rt).shared_context {
                Some(sc) => if sc.context.is_some() {
                    &&& r.is_some()
                    &&& r.unwrap()@ == session_key(sc)
                    &&& *final(rt) == with_session(*old(rt), Some(advanced(sc)))
                } else {
                    r.is_none() && *final(rt) == *old(rt)
                },
                None => r.is_none() && *final(rt) == *old(rt),
            },
    {
        let mut sco: Option<SharedContext> = None;
        std::mem::swap(&mut rt.shared_context, &mut sco);
        match sco {
            Some(mut sc) => {
                if sc.context.is_some() {
                    let key = sc.next_hydration_key();
                    rt.shared_context = Some(sc);
                    Some(key)
                } else {
                    rt.shared_context = Some(sc);
                    None
                }
            },
            None => None,
        }
    }
}

impl ScopeDisposer {
    /// Disposes the scope this disposer was made for; a scope already
    /// disposed is left alone.
    pub fn dispose(self, rt: &mut Runtime)
        requires
            old(rt).wf(),
        ensures
            final(rt).wf(),
            final(rt).arena() == dispose_spec(old(rt).arena(), self.id.key).0,
            final(rt).disposal_log@ == old(rt).disposal_log@ + dispose_spec(
                old(rt).arena(),
                self.id.key,
            ).1,
            final(rt).next_key == old(rt).next_key,
            final(rt).tracking_suppressed == old(rt).tracking_suppressed,
            final(rt).shared_context == old(rt).shared_context,
    {
        rt.dispose_scope(self.id)
    }
}

/// Creates a runtime with one root scope, runs `f` in it, and returns the
/// runtime with the root's disposer.
pub fn create_scope<F: FnOnce(Scope, Runtime) -> Runtime>(f: F) -> (r: (Runtime, ScopeDisposer))
    requires
        forall|s: Scope, x: Runtime| x.wf() ==> f.requires((s, x)),
    ensures
        r.1.id.key == 0,
        exists|fresh: Runtime, mid: Runtime|
            fresh.arena() == Map::<u64, ScopeView>::empty() && fresh.next_key == 0
                && !fresh.tracking_suppressed && fresh.shared_context.is_none()
                && fresh.disposal_log@.len() == 0 && allocated(fresh, mid, None, r.1.id) && mid.wf()
                && f.ensures((Scope { id: r.1.id }, mid), r.0),
{
    let mut rt = Runtime::new();
    let ghost fresh = rt;
    let d = rt.create_scope(f, None);
    proof {
        let mid = choose|mid: Runtime|
            allocated(fresh, mid, None, d.id) && mid.wf() && f.ensures((Scope { id: d.id }, mid), rt);
        assert(fresh.arena() == Map::<u64, ScopeView>::empty());
        assert(fresh.disposal_log@.len() == 0);
        assert(allocated(fresh, mid, None, d.id));
        assert(f.ensures((Scope { id: d.id }, mid), rt));
    }
    (rt, d)
}

/// Creates a runtime with one root scope, runs `f` in it, disposes the
/// scope and returns what `f` returned, with the runtime whose disposal log
/// holds the requests of that disposal.
pub fn run_scope<T, F: FnOnce(Scope, Runtime) -> (T, Runtime)>(f: F) -> (r: (T, Runtime))
    requires
        forall|s: Scope, x: Runtime| x.wf() ==> f.requires((s, x)),
        forall|s: Scope, x: Runtime, t: T, out: Runtime| f.ensures((s, x), (t, out)) ==> out.wf(),
    ensures
        r.1.wf(),
        exists|fresh: Runtime, mid: Runtime, out: Runtime|
            fresh.arena() == Map::<u64, ScopeView>::empty() && fresh.next_key == 0
                && !fresh.tracking_suppressed && fresh.shared_context.is_none()
                && fresh.disposal_log@.len() == 0 && allocated(fresh, mid, None, ScopeId { key: 0 })
                && mid.wf() && f.ensures((Scope { id: ScopeId { key: 0 } }, mid), (r.0, out))
                && r.1.arena() == dispose_spec(out.arena(), 0).0 && r.1.disposal_log@
                == out.disposal_log@ + dispose_spec(out.arena(), 0).1 && r.1.next_key
                == out.next_key && r.1.tracking_suppressed == out.tracking_suppressed
                && r.1.shared_context == out.shared_context,
{
    let mut rt = Runtime::new();
    let ghost fresh = rt;
    let (t, d) = rt.run_scope_undisposed(f, None);
    let ghost out = rt;
    rt.dispose_scope(d.id);
    proof {
        let mid = choose|mid: Runtime|
            allocated(fresh, mid, None, d.id) && mid.wf() && f.ensures(
                (Scope { id: d.id }, mid),
                (t, out),
            );
        assert(fresh.arena() == Map::<u64, ScopeView>::empty());
        assert(fresh.disposal_log@.len() == 0);
    }
    (t, rt)
}

/// Creates a runtime with one root scope and runs `f` in it; returns what
/// `f` returned, the runtime, and the root's disposer, not yet called.
pub fn run_scope_undisposed<T, F: FnOnce(Scope, Runtime) -> (T, Runtime)>(f: F) -> (r: (
    T,
    Runtime,
    ScopeDisposer,
))
    requires
        forall|s: Scope, x: Runtime| x.wf() ==> f.requires((s, x)),
        forall|s: Scope, x: Runtime, t: T, out: Runtime| f.ensures((s, x), (t, out)) ==> out.wf(),
    ensures
        r.2.id.key == 0,
        r.1.wf(),
        exists|fresh: Runtime, mid: Runtime|
            fresh.arena() == Map::<u64, ScopeView>::empty() && fresh.next_key == 0
                && !fresh.tracking_suppressed && fresh.shared_context.is_none()
                && fresh.disposal_log@.len() == 0 && allocated(fresh, mid, None, r.2.id) && mid.wf()
                && f.ensures((Scope { id: r.2.id }, mid), (r.0, r.1)),
{
    let mut rt = Runtime::new();
    let ghost fresh = rt;
    let (t, d) = rt.run_scope_undisposed(f, None);
    proof {
        let mid = choose|mid: Runtime|
            allocated(fresh, mid, None, d.id) && mid.wf() && f.ensures(
                (Scope { id: d.id }, mid),
                (t, rt),
            );
        assert(fresh.arena() == Map::<u64, ScopeView>::empty());
        assert(fresh.disposal_log@.len() == 0);
        assert(allocated(fresh, mid, None, d.id));
        assert(f.ensures((Scope { id: d.id }, mid), (t, rt)));
    }
    (t, rt, d)
}

} // verus!
