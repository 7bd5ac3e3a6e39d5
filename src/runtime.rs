//! The runtime: the arena of scope records, scope allocation, node
//! containers, cleanups and the disposal cascade.
use vstd::prelude::*;
use vstd::set_lib::lemma_len_subset;
use std::collections::HashMap;
use crate::hydration::SharedContext;
use crate::nodes::{frozen_get, frozen_items, frozen_len, frozen_push};
use crate::scope::{
    DisposalEvent, EffectId, ResourceId, Scope, ScopeDisposer, ScopeId, ScopeState, ScopeView,
    SignalId, StreamingResourceId, empty_scope,
};

verus! {

broadcast use vstd::std_specs::hash::group_hash_axioms;

/// Owns every scope record, the ambient tracking flag, the correlation
/// session and the events that disposal has produced so far.
pub struct Runtime {
    pub scopes: HashMap<u64, ScopeState>,
    pub next_key: u64,
    pub tracking_suppressed: bool,
    pub shared_context: Option<SharedContext>,
    pub disposal_log: Vec<DisposalEvent>,
}

/// Every key in the arena was handed out before `next_key`.
pub open spec fn arena_wf(a: Map<u64, ScopeView>, next_key: u64) -> bool {
    &&& a.dom().finite()
    &&& forall|k: u64| #[trigger] a.contains_key(k) ==> k < next_key
}

/// The events that disposing one scope record produces for its own nodes:
/// clear the dependencies of each effect, then run each cleanup, both in
/// insertion order.
pub open spec fn own_events(key: u64, s: ScopeView) -> Seq<DisposalEvent> {
    effect_events(key, s.effects) + cleanup_events(s.cleanups)
}

pub open spec fn effect_events(key: u64, effects: Seq<u64>) -> Seq<DisposalEvent> {
    Seq::new(
        effects.len(),
        |i: int|
            DisposalEvent::ClearDependencies {
                scope: ScopeId { key },
                effect: EffectId(i as usize),
                node: effects[i],
            },
    )
}

pub open spec fn cleanup_events(cleanups: Seq<u64>) -> Seq<DisposalEvent> {
    Seq::new(cleanups.len(), |i: int| DisposalEvent::Cleanup { token: cleanups[i] })
}

/// Disposing scope `key` of arena `a`: the record leaves the arena, its
/// children are disposed in order, then its own events follow. Returns the
/// remaining arena and the events in the order they happen. A key that is
/// not in the arena changes nothing.
pub open spec fn dispose_spec(a: Map<u64, ScopeView>, key: u64) -> (Map<u64, ScopeView>, Seq<
    DisposalEvent,
>)
    decreases a.dom().len(), 0nat,
{
    if a.contains_key(key) && a.remove(key).dom().len() < a.dom().len() {
        let s = a[key];
        let (a1, l1) = dispose_children(a.remove(key), s.children);
        (a1, l1 + own_events(key, s))
    } else {
        (a, Seq::empty())
    }
}

/// Disposing the scopes `ids` one after another, first to last.
pub open spec fn dispose_children(a: Map<u64, ScopeView>, ids: Seq<ScopeId>) -> (Map<
    u64,
    ScopeView,
>, Seq<DisposalEvent>)
    decreases a.dom().len(), ids.len() + 1,
{
    if ids.len() == 0 {
        (a, Seq::empty())
    } else {
        let (a1, l1) = dispose_children(a, ids.drop_last());
        if a1.dom().len() <= a.dom().len() {
            let (a2, l2) = dispose_spec(a1, ids.last().key);
            (a2, l1 + l2)
        } else {
            (a1, l1)
        }
    }
}

/// Disposal only removes records: what is left is part of what was there.
pub proof fn lemma_dispose_submap(a: Map<u64, ScopeView>, key: u64)
    requires
        a.dom().finite(),
    ensures
        dispose_spec(a, key).0.submap_of(a),
        dispose_spec(a, key).0.dom().finite(),
        dispose_spec(a, key).0.dom().len() <= a.dom().len(),
    decreases a.dom().len(), 0nat,
{
    if a.contains_key(key) {
        let a0 = a.remove(key);
        assert(a0.dom() =~= a.dom().remove(key));
        assert(a0.dom().len() < a.dom().len());
        lemma_dispose_children_submap(a0, a[key].children);
        let r = dispose_spec(a, key).0;
        assert(r.submap_of(a));
        lemma_len_subset(r.dom(), a.dom());
    }
}

pub proof fn lemma_dispose_children_submap(a: Map<u64, ScopeView>, ids: Seq<ScopeId>)
    requires
        a.dom().finite(),
    ensures
        dispose_children(a, ids).0.submap_of(a),
        dispose_children(a, ids).0.dom().finite(),
        dispose_children(a, ids).0.dom().len() <= a.dom().len(),
    decreases a.dom().len(), ids.len() + 1,
{
    if ids.len() > 0 {
        lemma_dispose_children_submap(a, ids.drop_last());
        let a1 = dispose_children(a, ids.drop_last()).0;
        lemma_dispose_submap(a1, ids.last().key);
        let r = dispose_children(a, ids).0;
        if a1.dom().len() <= a.dom().len() {
            vstd::map_lib::lemma_submap_of_trans(r, a1, a);
        }
        assert(r.submap_of(a));
        lemma_len_subset(r.dom(), a.dom());
    }
}

/// Removing records keeps the arena well formed.
pub proof fn lemma_submap_wf(a: Map<u64, ScopeView>, b: Map<u64, ScopeView>, n: u64)
    requires
        arena_wf(a, n),
        b.submap_of(a),
        b.dom().finite(),
    ensures
        arena_wf(b, n),
{
    assert forall|k: u64| #[trigger] b.contains_key(k) implies a.contains_key(k) && b[k] == a[k] by {}
}

impl Runtime {
    /// The arena as a map from key to record.
    pub open spec fn arena(&self) -> Map<u64, ScopeView> {
        Map::new(|k: u64| self.scopes@.contains_key(k), |k: u64| self.scopes@.index(k).view())
    }

    pub open spec fn wf(&self) -> bool {
        arena_wf(self.arena(), self.next_key)
    }

    /// Whether another scope can be allocated: keys are never reused.
    pub open spec fn can_allocate(&self) -> bool {
        self.next_key < u64::MAX
    }

    pub open spec fn is_live(&self, id: ScopeId) -> bool {
        self.arena().contains_key(id.key)
    }

    /// A runtime with no scopes, tracking enabled and no correlation session.
    pub fn new() -> (r: Runtime)
        ensures
            r.wf(),
            r.arena() == Map::<u64, ScopeView>::empty(),
            r.next_key == 0,
            !r.tracking_suppressed,
            r.shared_context.is_none(),
            r.disposal_log@ == Seq::<DisposalEvent>::empty(),
    {
        let r = Runtime {
            scopes: HashMap::new(),
            next_key: 0,
            tracking_suppressed: false,
            shared_context: None,
            disposal_log: Vec::new(),
        };
        assert(r.arena() =~= Map::<u64, ScopeView>::empty());
        r
    }
}

/// `after` is `before` with a fresh scope `id` allocated under `parent`:
/// the key is the next one, the record is empty, and a live parent lists
/// the new scope as its last child.
pub open spec fn allocated(before: Runtime, after: Runtime, parent: Option<Scope>, id: ScopeId) -> bool {
    let a = before.arena();
    let with_child = match parent {
        Some(p) => if before.is_live(p.id) {
            a.insert(p.id.key, ScopeView { children: a[p.id.key].children.push(id), ..a[p.id.key] })
        } else {
            a
        },
        None => a,
    };
    &&& id.key == before.next_key
    &&& after.next_key == before.next_key + 1
    &&& after.arena() == with_child.insert(id.key, empty_scope(parent))
    &&& after.tracking_suppressed == before.tracking_suppressed
    &&& after.shared_context == before.shared_context
    &&& after.disposal_log@ == before.disposal_log@
}

impl Runtime {
    /// Allocates a record for a new scope under `parent` and registers it as
    /// the parent's last child when the parent is live.
    pub fn alloc_scope(&mut self, parent: Option<Scope>) -> (r: Scope)
        requires
            old(self).wf(),
            old(self).can_allocate(),
        ensures
            final(self).wf(),
            allocated(*old(self), *final(self), parent, r.id),
    {
        let key = self.next_key;
        let id = ScopeId { key };
        self.next_key = key + 1;
        let ghost a1 = old(self).arena();
        if let Some(p) = parent {
            if let Some(mut st) = self.scopes.remove(&p.id.key) {
                st.children.push(id);
                self.scopes.insert(p.id.key, st);
                assert(self.arena() =~= a1.insert(
                    p.id.key,
                    ScopeView { children: a1[p.id.key].children.push(id), ..a1[p.id.key] },
                ));
            } else {
                assert(self.arena() =~= a1);
            }
        }
        let ghost a2 = self.arena();
        self.scopes.insert(key, ScopeState::new(parent));
        assert(self.arena() =~= a2.insert(key, empty_scope(parent)));
        Scope { id }
    }

    /// Appends a signal node to scope `id`; returns its index there, or
    /// index 0 and no change when the scope is not live.
    pub fn push_signal(&mut self, id: ScopeId, node: u64) -> (r: SignalId)
        requires
            old(self).wf(),
        ensures
            final(self).wf(),
            final(self).arena() == if old(self).is_live(id) {
                old(self).arena().insert(
                    id.key,
                    ScopeView {
                        signals: old(self).arena()[id.key].signals.push(node),
                        ..old(self).arena()[id.key]
                    },
                )
            } else {
                old(self).arena()
            },
            r.0 == if old(self).is_live(id) {
                old(self).arena()[id.key].signals.len()
            } else {
                0
            },
            final(self).next_key == old(self).next_key,
            final(self).tracking_suppressed == old(self).tracking_suppressed,
            final(self).shared_context == old(self).shared_context,
            final(self).disposal_log@ == old(self).disposal_log@,
    {
        let ghost a0 = old(self).arena();
        if let Some(mut st) = self.scopes.remove(&id.key) {
            frozen_push(&mut st.signals, node);
            let r = SignalId(frozen_len(&st.signals) - 1);
            self.scopes.insert(id.key, st);
            assert(self.arena() =~= a0.insert(
                id.key,
                ScopeView { signals: a0[id.key].signals.push(node), ..a0[id.key] },
            ));
            r
        } else {
            assert(self.arena() =~= a0);
            SignalId(0)
        }
    }

    /// Appends an effect node to scope `id`; returns its index there, or
    /// index 0 and no change when the scope is not live.
    pub fn push_effect(&mut self, id: ScopeId, node: u64) -> (r: EffectId)
        requires
            old(self).wf(),
        ensures
            final(self).wf(),
            final(self).arena() == if old(self).is_live(id) {
                old(self).arena().insert(
                    id.key,
                    ScopeView {
                        effects: old(self).arena()[id.key].effects.push(node),
                        ..old(self).arena()[id.key]
                    },
                )
            } else {
                old(self).arena()
            },
            r.0 == if old(self).is_live(id) {
                old(self).arena()[id.key].effects.len()
            } else {
                0
            },
            final(self).next_key == old(self).next_key,
            final(self).tracking_suppressed == old(self).tracking_suppressed,
            final(self).shared_context == old(self).shared_context,
            final(self).disposal_log@ == old(self).disposal_log@,
    {
        let ghost a0 = old(self).arena();
        if let Some(mut st) = self.scopes.remove(&id.key) {
            frozen_push(&mut st.effects, node);
            let r = EffectId(frozen_len(&st.effects) - 1);
            self.scopes.insert(id.key, st);
            assert(self.arena() =~= a0.insert(
                id.key,
                ScopeView { effects: a0[id.key].effects.push(node), ..a0[id.key] },
            ));
            r
        } else {
            assert(self.arena() =~= a0);
            EffectId(0)
        }
    }

    /// Appends a resource node to scope `id`; returns its index there, or
    /// index 0 and no change when the scope is not live.
    pub fn push_resource(&mut self, id: ScopeId, node: u64) -> (r: ResourceId)
        requires
            old(self).wf(),
        ensures
            final(self).wf(),
            final(self).arena() == if old(self).is_live(id) {
                old(self).arena().insert(
                    id.key,
                    ScopeView {
                        resources: old(self).arena()[id.key].resources.push(node),
                        ..old(self).arena()[id.key]
                    },
                )
            } else {
                old(self).arena()
            },
            r.0 == if old(self).is_live(id) {
                old(self).arena()[id.key].resources.len()
            } else {
                0
            },
            final(self).next_key == old(self).next_key,
            final(self).tracking_suppressed == old(self).tracking_suppressed,
            final(self).shared_context == old(self).shared_context,
            final(self).disposal_log@ == old(self).disposal_log@,
    {
        let ghost a0 = old(self).arena();
        if let Some(mut st) = self.scopes.remove(&id.key) {
            frozen_push(&mut st.resources, node);
            let r = ResourceId(frozen_len(&st.resources) - 1);
            self.scopes.insert(id.key, st);
            assert(self.arena() =~= a0.insert(
                id.key,
                ScopeView { resources: a0[id.key].resources.push(node), ..a0[id.key] },
            ));
            r
        } else {
            assert(self.arena() =~= a0);
            ResourceId(0)
        }
    }

    /// Registers the cleanup named `token` on scope `id`, after those
    /// already there; nothing happens when the scope is not live.
    pub fn push_cleanup(&mut self, id: ScopeId, token: u64)
        requires
            old(self).wf(),
        ensures
            final(self).wf(),
            final(self).arena() == if old(self).is_live(id) {
                old(self).arena().insert(
                    id.key,
                    ScopeView {
                        cleanups: old(self).arena()[id.key].cleanups.push(token),
                        ..old(self).arena()[id.key]
                    },
                )
            } else {
                old(self).arena()
            },
            final(self).next_key == old(self).next_key,
            final(self).tracking_suppressed == old(self).tracking_suppressed,
            final(self).shared_context == old(self).shared_context,
            final(self).disposal_log@ == old(self).disposal_log@,
    {
        let ghost a0 = old(self).arena();
        if let Some(mut st) = self.scopes.remove(&id.key) {
            st.cleanups.push(token);
            self.scopes.insert(id.key, st);
            assert(self.arena() =~= a0.insert(
                id.key,
                ScopeView { cleanups: a0[id.key].cleanups.push(token), ..a0[id.key] },
            ));
        } else {
            assert(self.arena() =~= a0);
        }
    }
}

impl Runtime {
    /// Disposes scope `id`: its record leaves the arena, its children are
    /// disposed first to last, then the effects of the record are asked to
    /// clear their dependencies and its cleanups are run, each in insertion
    /// order. The requests are appended to `disposal_log`. A scope that is
    /// not live is left alone.
    pub fn dispose_scope(&mut self, id: ScopeId)
        requires
            old(self).wf(),
        ensures
            final(self).wf(),
            final(self).arena() == dispose_spec(old(self).arena(), id.key).0,
            final(self).disposal_log@ == old(self).disposal_log@ + dispose_spec(
                old(self).arena(),
                id.key,
            ).1,
            final(self).next_key == old(self).next_key,
            final(self).tracking_suppressed == old(self).tracking_suppressed,
            final(self).shared_context == old(self).shared_context,
    {
        self.dispose_rec(id, Ghost(self.arena().dom().len()));
    }

    fn dispose_rec(&mut self, id: ScopeId, Ghost(fuel): Ghost<nat>)
        requires
            old(self).wf(),
            old(self).arena().dom().len() <= fuel,
        ensures
            final(self).wf(),
            final(self).arena() == dispose_spec(old(self).arena(), id.key).0,
            final(self).disposal_log@ == old(self).disposal_log@ + dispose_spec(
                old(self).arena(),
                id.key,
            ).1,
            final(self).next_key == old(self).next_key,
            final(self).tracking_suppressed == old(self).tracking_suppressed,
            final(self).shared_context == old(self).shared_context,
        decreases fuel,
    {
        let ghost a0 = old(self).arena();
        let ghost log0 = old(self).disposal_log@;
        if let Some(st) = self.scopes.remove(&id.key) {
            let ghost a1 = a0.remove(id.key);
            assert(self.arena() =~= a1);
            assert(a1.dom() =~= a0.dom().remove(id.key));
            assert(a1.dom().len() < a0.dom().len());
            let ghost kids = st.children@;
            let mut i: usize = 0;
            while i < st.children.len()
                invariant
                    i <= st.children@.len(),
                    kids == st.children@,
                    a1.dom().finite(),
                    a1.dom().len() < a0.dom().len(),
                    a0.dom().len() <= fuel,
                    arena_wf(a1, self.next_key),
                    self.arena() == dispose_children(a1, kids.take(i as int)).0,
                    self.disposal_log@ == log0 + dispose_children(a1, kids.take(i as int)).1,
                    self.next_key == old(self).next_key,
                    self.tracking_suppressed == old(self).tracking_suppressed,
                    self.shared_context == old(self).shared_context,
                decreases st.children.len() - i,
            {
                proof {
                    lemma_dispose_children_submap(a1, kids.take(i as int));
                    lemma_submap_wf(a1, self.arena(), self.next_key);
                }
                let c = st.children[i];
                assert(self.arena().dom().len() < a0.dom().len());
                self.dispose_rec(c, Ghost((fuel - 1) as nat));
                proof {
                    let t = kids.take(i as int + 1);
                    assert(t.drop_last() =~= kids.take(i as int));
                    assert(t.last() == c);
                }
                i = i + 1;
            }
            proof {
                assert(kids.take(kids.len() as int) =~= kids);
                lemma_dispose_children_submap(a1, kids);
                lemma_submap_wf(a1, self.arena(), self.next_key);
            }
            let ghost log1 = self.disposal_log@;
            let mut j: usize = 0;
            while j < frozen_len(&st.effects)
                invariant
                    j <= frozen_items(st.effects).len(),
                    self.arena() == dispose_children(a1, kids).0,
                    arena_wf(self.arena(), self.next_key),
                    self.next_key == old(self).next_key,
                    self.tracking_suppressed == old(self).tracking_suppressed,
                    self.shared_context == old(self).shared_context,
                    self.disposal_log@ == log1 + effect_events(id.key, frozen_items(st.effects).take(j as int)),
                decreases frozen_items(st.effects).len() - j,
            {
                let node = frozen_get(&st.effects, j).unwrap();
                self.disposal_log.push(
                    DisposalEvent::ClearDependencies { scope: id, effect: EffectId(j), node },
                );
                assert(effect_events(id.key, frozen_items(st.effects).take(j as int + 1))
                    =~= effect_events(id.key, frozen_items(st.effects).take(j as int)).push(
                    DisposalEvent::ClearDependencies { scope: id, effect: EffectId(j), node },
                ));
                j = j + 1;
            }
            assert(frozen_items(st.effects).take(frozen_items(st.effects).len() as int) =~= frozen_items(
                st.effects,
            ));
            let ghost log2 = self.disposal_log@;
            let mut k: usize = 0;
            while k < st.cleanups.len()
                invariant
                    k <= st.cleanups@.len(),
                    self.arena() == dispose_children(a1, kids).0,
                    arena_wf(self.arena(), self.next_key),
                    self.next_key == old(self).next_key,
                    self.tracking_suppressed == old(self).tracking_suppressed,
                    self.shared_context == old(self).shared_context,
                    self.disposal_log@ == log2 + cleanup_events(st.cleanups@.take(k as int)),
                decreases st.cleanups.len() - k,
            {
                self.disposal_log.push(DisposalEvent::Cleanup { token: st.cleanups[k] });
                assert(cleanup_events(st.cleanups@.take(k as int + 1)) =~= cleanup_events(
                    st.cleanups@.take(k as int),
                ).push(DisposalEvent::Cleanup { token: st.cleanups@[k as int] }));
                k = k + 1;
            }
            assert(st.cleanups@.take(st.cleanups@.len() as int) =~= st.cleanups@);
            assert(self.arena() == dispose_children(a1, kids).0);
            assert(a0[id.key] == st@);
            assert(dispose_spec(a0, id.key).0 == dispose_children(a1, kids).0);
            assert(self.disposal_log@ =~= log0 + dispose_spec(a0, id.key).1);
        } else {
            assert(self.arena() =~= a0);
            assert(self.disposal_log@ =~= log0 + dispose_spec(a0, id.key).1);
        }
    }
}

/// `rt` with dependency tracking suppressed.
pub open spec fn suppressed(rt: Runtime) -> Runtime {
    Runtime { tracking_suppressed: true, ..rt }
}

/// `rt` with the tracking flag set back to `flag`.
pub open spec fn with_tracking(rt: Runtime, flag: bool) -> Runtime {
    Runtime { tracking_suppressed: flag, ..rt }
}

impl Runtime {
    /// Runs `f` on this runtime with dependency tracking suppressed, then
    /// restores the tracking flag to what it was before the call, whatever
    /// `f` left it at.
    pub fn untrack<T, F: FnOnce(Runtime) -> (T, Runtime)>(&mut self, f: F) -> (r: T)
        requires
            f.requires((suppressed(*old(self)),)),
        ensures
            final(self).tracking_suppressed == old(self).tracking_suppressed,
            exists|out: Runtime|
                f.ensures((suppressed(*old(self)),), (r, out)) && *final(self) == with_tracking(
                    out,
                    old(self).tracking_suppressed,
                ),
    {
        let prev = self.tracking_suppressed;
        let mut held = Runtime::new();
        std::mem::swap(self, &mut held);
        held.tracking_suppressed = true;
        let (r, mut out) = f(held);
        let ghost out0 = out;
        out.tracking_suppressed = prev;
        *self = out;
        assert(f.ensures((suppressed(*old(self)),), (r, out0)));
        assert(*self == with_tracking(out0, old(self).tracking_suppressed));
        r
    }

    /// Allocates a scope under `parent`, runs `f` with it, and returns a
    /// disposer for that scope.
    pub fn create_scope<F: FnOnce(Scope, Runtime) -> Runtime>(
        &mut self,
        f: F,
        parent: Option<Scope>,
    ) -> (r: ScopeDisposer)
        requires
            old(self).wf(),
            old(self).can_allocate(),
            forall|s: Scope, rt: Runtime| rt.wf() ==> f.requires((s, rt)),
        ensures
            r.id.key == old(self).next_key,
            exists|mid: Runtime|
                allocated(*old(self), mid, parent, r.id) && mid.wf() && f.ensures(
                    (Scope { id: r.id }, mid),
                    *final(self),
                ),
    {
        let s = self.alloc_scope(parent);
        let mut held = Runtime::new();
        std::mem::swap(self, &mut held);
        let ghost mid = held;
        let out = f(s, held);
        *self = out;
        assert(allocated(*old(self), mid, parent, s.id) && f.ensures((s, mid), *self));
        ScopeDisposer { id: s.id }
    }

    /// Allocates a scope under `parent`, runs `f` with it, disposes the
    /// scope and returns what `f` returned.
    pub fn run_scope<T, F: FnOnce(Scope, Runtime) -> (T, Runtime)>(
        &mut self,
        f: F,
        parent: Option<Scope>,
    ) -> (r: T)
        requires
            old(self).wf(),
            old(self).can_allocate(),
            forall|s: Scope, rt: Runtime| rt.wf() ==> f.requires((s, rt)),
            forall|s: Scope, rt: Runtime, t: T, out: Runtime|
                f.ensures((s, rt), (t, out)) ==> out.wf(),
        ensures
            final(self).wf(),
            exists|mid: Runtime, out: Runtime|
                allocated(*old(self), mid, parent, ScopeId { key: old(self).next_key }) && mid.wf()
                    && f.ensures((Scope { id: ScopeId { key: old(self).next_key } }, mid), (r, out))
                    && final(self).arena() == dispose_spec(out.arena(), old(self).next_key).0
                    && final(self).disposal_log@ == out.disposal_log@ + dispose_spec(
                    out.arena(),
                    old(self).next_key,
                ).1 && final(self).next_key == out.next_key && final(self).tracking_suppressed
                    == out.tracking_suppressed && final(self).shared_context == out.shared_context,
    {
        let (r, d) = self.run_scope_undisposed(f, parent);
        self.dispose_scope(d.id);
        r
    }

    /// Allocates a scope under `parent`, runs `f` with it, and returns what
    /// `f` returned together with a disposer for the scope, still live.
    pub fn run_scope_undisposed<T, F: FnOnce(Scope, Runtime) -> (T, Runtime)>(
        &mut self,
        f: F,
        parent: Option<Scope>,
    ) -> (r: (T, ScopeDisposer))
        requires
            old(self).wf(),
            old(self).can_allocate(),
            forall|s: Scope, rt: Runtime| rt.wf() ==> f.requires((s, rt)),
            forall|s: Scope, rt: Runtime, t: T, out: Runtime|
                f.ensures((s, rt), (t, out)) ==> out.wf(),
        ensures
            final(self).wf(),
            r.1.id.key == old(self).next_key,
            exists|mid: Runtime|
                allocated(*old(self), mid, parent, r.1.id) && mid.wf() && f.ensures(
                    (Scope { id: r.1.id }, mid),
                    (r.0, *final(self)),
                ),
    {
        let s = self.alloc_scope(parent);
        let mut held = Runtime::new();
        std::mem::swap(self, &mut held);
        let ghost mid = held;
        let (t, out) = f(s, held);
        *self = out;
        assert(allocated(*old(self), mid, parent, s.id) && f.ensures((s, mid), (t, *self)));
        (t, ScopeDisposer { id: s.id })
    }
}

/// The value visible under context key `ty` from scope `key`: the scope's
/// own value, else what its parent sees. The walk goes only to parents
/// with smaller keys, that is, allocated earlier.
pub open spec fn lookup_context(a: Map<u64, ScopeView>, key: u64, ty: u64) -> Option<u64>
    decreases key,
{
    if a.contains_key(key) {
        if a[key].contexts.contains_key(ty) {
            Some(a[key].contexts[ty])
        } else {
            match a[key].parent {
                Some(p) => if p.id.key < key {
                    lookup_context(a, p.id.key, ty)
                } else {
                    None
                },
                None => None,
            }
        }
    } else {
        None
    }
}

/// The arena after scope `key` sets context `ty` to `value`.
pub open spec fn provided(a: Map<u64, ScopeView>, key: u64, ty: u64, value: u64) -> Map<u64, ScopeView> {
    if a.contains_key(key) {
        a.insert(key, ScopeView { contexts: a[key].contexts.insert(ty, value), ..a[key] })
    } else {
        a
    }
}

pub open spec fn resource_ids(key: u64, resources: Seq<u64>) -> Seq<StreamingResourceId> {
    Seq::new(
        resources.len(),
        |i: int| StreamingResourceId { scope: ScopeId { key }, resource: ResourceId(i as usize) },
    )
}

/// Every resource of the scopes with keys below `n`, by key, then by index.
pub open spec fn resources_below(a: Map<u64, ScopeView>, n: nat) -> Seq<StreamingResourceId>
    decreases n,
{
    if n == 0 {
        Seq::empty()
    } else {
        let k = (n - 1) as u64;
        resources_below(a, (n - 1) as nat) + if a.contains_key(k) {
            resource_ids(k, a[k].resources)
        } else {
            Seq::empty()
        }
    }
}

impl Runtime {
    /// Sets context `ty` of scope `id` to `value`, replacing its own earlier
    /// value; nothing happens when the scope is not live.
    pub fn provide_context(&mut self, id: ScopeId, ty: u64, value: u64)
        requires
            old(self).wf(),
        ensures
            final(self).wf(),
            final(self).arena() == provided(old(self).arena(), id.key, ty, value),
            final(self).next_key == old(self).next_key,
            final(self).tracking_suppressed == old(self).tracking_suppressed,
            final(self).shared_context == old(self).shared_context,
            final(self).disposal_log@ == old(self).disposal_log@,
    {
        let ghost a0 = old(self).arena();
        if let Some(mut st) = self.scopes.remove(&id.key) {
            st.contexts.insert(ty, value);
            self.scopes.insert(id.key, st);
            assert(self.arena() =~= provided(a0, id.key, ty, value));
        } else {
            assert(self.arena() =~= a0);
        }
    }

    /// The context value under `ty` visible from scope `id`.
    pub fn use_context(&self, id: ScopeId, ty: u64) -> (r: Option<u64>)
        ensures
            r == lookup_context(self.arena(), id.key, ty),
    {
        let mut cur: u64 = id.key;
        loop
            invariant
                lookup_context(self.arena(), cur, ty) == lookup_context(self.arena(), id.key, ty),
            decreases cur,
        {
            match self.scopes.get(&cur) {
                None => {
                    return None;
                },
                Some(st) => {
                    match st.contexts.get(&ty) {
                        Some(v) => {
                            return Some(*v);
                        },
                        None => {},
                    }
                    match st.parent {
                        Some(p) => {
                            if p.id.key < cur {
                                cur = p.id.key;
                            } else {
                                return None;
                            }
                        },
                        None => {
                            return None;
                        },
                    }
                },
            }
        }
    }

    /// Every resource of every live scope, by scope key, then by index.
    pub fn all_resources(&self) -> (r: Vec<StreamingResourceId>)
        ensures
            r@ == resources_below(self.arena(), self.next_key as nat),
    {
        let mut r: Vec<StreamingResourceId> = Vec::new();
        let mut k: u64 = 0;
        while k < self.next_key
            invariant
                k <= self.next_key,
                r@ == resources_below(self.arena(), k as nat),
            decreases self.next_key - k,
        {
            if let Some(st) = self.scopes.get(&k) {
                let ghost base = r@;
                let mut i: usize = 0;
                while i < frozen_len(&st.resources)
                    invariant
                        i <= frozen_items(st.resources).len(),
                        self.arena()[k] == st@,
                        r@ == base + resource_ids(k, frozen_items(st.resources).take(i as int)),
                    decreases frozen_items(st.resources).len() - i,
                {
                    r.push(StreamingResourceId { scope: ScopeId { key: k }, resource: ResourceId(i) });
                    assert(resource_ids(k, frozen_items(st.resources).take(i as int + 1)) =~= resource_ids(
                        k,
                        frozen_items(st.resources).take(i as int),
                    ).push(StreamingResourceId { scope: ScopeId { key: k }, resource: ResourceId(i) }));
                    i = i + 1;
                }
                assert(frozen_items(st.resources).take(frozen_items(st.resources).len() as int)
                    =~= frozen_items(st.resources));
                assert(r@ =~= resources_below(self.arena(), (k + 1) as nat));
            } else {
                assert(r@ =~= resources_below(self.arena(), (k + 1) as nat));
            }
            k = k + 1;
        }
        r
    }
}

} // verus!
