//! Properties of the scope tree that hold across several operations.
use vstd::prelude::*;
use crate::hydration::{SharedContext, decimal, digit_char};
use crate::runtime::{
    Runtime, allocated,
    cleanup_events, dispose_children, dispose_spec, lemma_dispose_children_submap, lookup_context,
    own_events, provided,
};
use crate::scope::{DisposalEvent, Scope, ScopeId, ScopeView, key_drawn, next_key_of};

verus! {

/// Disposing a root whose only child has a single, childless child of its
/// own produces the grandchild's events first, then the child's, then the
/// root's, each exactly once, and leaves none of the three live.
pub proof fn law_disposal_cascade(a: Map<u64, ScopeView>, root: u64, child: u64, grandchild: u64)
    requires
        a.dom().finite(),
        a.contains_key(root),
        a.contains_key(child),
        a.contains_key(grandchild),
        root != child,
        root != grandchild,
        child != grandchild,
        a[root].children == seq![ScopeId { key: child }],
        a[child].children == seq![ScopeId { key: grandchild }],
        a[grandchild].children.len() == 0,
    ensures
        dispose_spec(a, root).1 == own_events(grandchild, a[grandchild]) + own_events(
            child,
            a[child],
        ) + own_events(root, a[root]),
        !dispose_spec(a, root).0.contains_key(root),
        !dispose_spec(a, root).0.contains_key(child),
        !dispose_spec(a, root).0.contains_key(grandchild),
{
    let a1 = a.remove(root);
    let a2 = a1.remove(child);
    let a3 = a2.remove(grandchild);
    assert(a1.dom() =~= a.dom().remove(root));
    assert(a2.dom() =~= a1.dom().remove(child));
    assert(a3.dom() =~= a2.dom().remove(grandchild));
    let g = seq![ScopeId { key: grandchild }];
    let c = seq![ScopeId { key: child }];
    assert(g.drop_last() =~= Seq::<ScopeId>::empty());
    assert(c.drop_last() =~= Seq::<ScopeId>::empty());
    assert(a2[grandchild] == a[grandchild]);
    assert(a1[child] == a[child]);
    assert(dispose_children(a3, a[grandchild].children) == (a3, Seq::<DisposalEvent>::empty()));
    assert(dispose_spec(a2, grandchild) == (a3, Seq::<DisposalEvent>::empty() + own_events(
        grandchild,
        a[grandchild],
    )));
    assert(dispose_children(a2, g.drop_last()) == (a2, Seq::<DisposalEvent>::empty()));
    assert(g.last() == ScopeId { key: grandchild });
    assert(dispose_children(a2, g) == (a3, Seq::<DisposalEvent>::empty() + (Seq::<
        DisposalEvent,
    >::empty() + own_events(grandchild, a[grandchild]))));
    assert(dispose_spec(a1, child).0 == a3);
    assert(dispose_children(a1, c.drop_last()) == (a1, Seq::<DisposalEvent>::empty()));
    assert(c.last() == ScopeId { key: child });
    assert(dispose_children(a1, c).0 == a3);
    assert(dispose_spec(a, root).0 == a3);
    assert(dispose_spec(a, root).1 =~= own_events(grandchild, a[grandchild]) + own_events(
        child,
        a[child],
    ) + own_events(root, a[root]));
}

/// Disposing a scope a second time changes nothing and produces no events.
pub proof fn law_dispose_idempotent(a: Map<u64, ScopeView>, key: u64)
    requires
        a.dom().finite(),
    ensures
        dispose_spec(dispose_spec(a, key).0, key) == (dispose_spec(a, key).0, Seq::<
            DisposalEvent,
        >::empty()),
{
    if a.contains_key(key) {
        let a1 = a.remove(key);
        assert(a1.dom() =~= a.dom().remove(key));
        lemma_dispose_children_submap(a1, a[key].children);
    }
}

/// The cleanups of a scope without children or effects run in the order
/// they were registered, each once.
pub proof fn law_cleanup_order(a: Map<u64, ScopeView>, key: u64)
    requires
        a.dom().finite(),
        a.contains_key(key),
        a[key].children.len() == 0,
        a[key].effects.len() == 0,
    ensures
        dispose_spec(a, key).1 == cleanup_events(a[key].cleanups),
        dispose_spec(a, key).1.len() == a[key].cleanups.len(),
        forall|i: int|
            0 <= i < a[key].cleanups.len() ==> dispose_spec(a, key).1[i] == (DisposalEvent::Cleanup {
                token: a[key].cleanups[i],
            }),
{
    let a1 = a.remove(key);
    assert(a1.dom() =~= a.dom().remove(key));
    assert(dispose_spec(a, key).1 =~= cleanup_events(a[key].cleanups));
}

/// A child scope that sets context `ty` sees its own value; its parent, and
/// a sibling allocated under the same parent, see what they saw before,
/// and a sibling without its own value sees the parent's.
pub proof fn law_context_shadowing(
    a: Map<u64, ScopeView>,
    parent: u64,
    child: u64,
    sibling: u64,
    ty: u64,
    value: u64,
)
    requires
        a.contains_key(child),
        a.contains_key(sibling),
        child != sibling,
        a[child].parent == Some(Scope { id: ScopeId { key: parent } }),
        a[sibling].parent == Some(Scope { id: ScopeId { key: parent } }),
        parent < child,
        parent < sibling,
    ensures
        lookup_context(provided(a, child, ty, value), child, ty) == Some(value),
        lookup_context(provided(a, child, ty, value), parent, ty) == lookup_context(a, parent, ty),
        lookup_context(provided(a, child, ty, value), sibling, ty) == lookup_context(a, sibling, ty),
        !a[sibling].contexts.contains_key(ty) ==> lookup_context(
            provided(a, child, ty, value),
            sibling,
            ty,
        ) == lookup_context(a, parent, ty),
{
    lemma_lookup_below(a, child, ty, value, parent);
}

/// Setting a context on scope `changed` leaves what every scope with a
/// smaller key sees, since the walk only goes to smaller keys.
proof fn lemma_lookup_below(a: Map<u64, ScopeView>, changed: u64, ty: u64, value: u64, key: u64)
    requires
        key < changed,
    ensures
        lookup_context(provided(a, changed, ty, value), key, ty) == lookup_context(a, key, ty),
    decreases key,
{
    let b = provided(a, changed, ty, value);
    if a.contains_key(key) {
        assert(b[key] == a[key]);
        match a[key].parent {
            Some(p) => {
                if p.id.key < key {
                    lemma_lookup_below(a, changed, ty, value, p.id.key);
                }
            },
            None => {},
        }
    }
}

/// A run of correlation-key requests on one runtime, outside any nested
/// namespace: the session states before and after each request, starting
/// with no session, and the keys drawn.
pub open spec fn key_run(states: Seq<Option<SharedContext>>, keys: Seq<Seq<char>>) -> bool {
    &&& states.len() == keys.len() + 1
    &&& states[0].is_none()
    &&& forall|i: int|
        0 <= i < keys.len() ==> {
            &&& (#[trigger] states[i + 1]).is_some()
            &&& key_drawn(states[i], states[i + 1].unwrap())
            &&& keys[i] == next_key_of(states[i])
        }
}

proof fn lemma_run_ordinals(states: Seq<Option<SharedContext>>, keys: Seq<Seq<char>>, i: int)
    requires
        key_run(states, keys),
        keys.len() <= u64::MAX,
        0 <= i <= keys.len(),
    ensures
        i == 0 ==> states[i].is_none(),
        i > 0 ==> states[i].is_some() && states[i].unwrap().context.is_none()
            && states[i].unwrap().id == i,
        next_key_of(states[i]) == decimal(i as nat),
    decreases i,
{
    if i > 0 {
        lemma_run_ordinals(states, keys, i - 1);
        assert(states[(i - 1) + 1].is_some());
    }
}

/// Two runs that request the same number of correlation keys from fresh
/// sessions draw the same keys: the i-th key of either is `i` in decimal.
pub proof fn law_correlation_pairing(
    states1: Seq<Option<SharedContext>>,
    keys1: Seq<Seq<char>>,
    states2: Seq<Option<SharedContext>>,
    keys2: Seq<Seq<char>>,
)
    requires
        key_run(states1, keys1),
        key_run(states2, keys2),
        keys1.len() == keys2.len(),
        keys1.len() <= u64::MAX,
    ensures
        keys1 == keys2,
        forall|i: int| 0 <= i < keys1.len() ==> keys1[i] == decimal(i as nat),
        forall|i: int, j: int| 0 <= i < j < keys1.len() ==> keys1[i] != keys1[j],
{
    assert forall|i: int| 0 <= i < keys1.len() implies keys1[i] == decimal(i as nat) && keys2[i]
        == decimal(i as nat) by {
        lemma_run_ordinals(states1, keys1, i);
        lemma_run_ordinals(states2, keys2, i);
        assert(states1[i + 1].is_some());
        assert(states2[i + 1].is_some());
    }
    assert(keys1 =~= keys2);
    assert forall|i: int, j: int| 0 <= i < j < keys1.len() implies keys1[i] != keys1[j] by {
        if keys1[i] == keys1[j] {
            law_decimal_injective(i as nat, j as nat);
        }
    }
}

/// `after` is `before` once the node `node` was pushed as a signal of the
/// live scope `key`, which handed back `index`.
pub open spec fn signal_pushed(
    before: Map<u64, ScopeView>,
    after: Map<u64, ScopeView>,
    key: u64,
    node: u64,
    index: usize,
) -> bool {
    &&& before.contains_key(key)
    &&& after == before.insert(
        key,
        ScopeView { signals: before[key].signals.push(node), ..before[key] },
    )
    &&& index == before[key].signals.len()
}

proof fn lemma_pushed_prefix(
    arenas: Seq<Map<u64, ScopeView>>,
    key: u64,
    nodes: Seq<u64>,
    ids: Seq<usize>,
    i: int,
)
    requires
        arenas.len() == nodes.len() + 1,
        ids.len() == nodes.len(),
        arenas[0].contains_key(key),
        arenas[0][key].signals.len() == 0,
        forall|k: int|
            0 <= k < nodes.len() ==> signal_pushed(
                #[trigger] arenas[k],
                arenas[k + 1],
                key,
                nodes[k],
                ids[k],
            ),
        0 <= i <= nodes.len(),
    ensures
        arenas[i].contains_key(key),
        arenas[i][key].signals == nodes.take(i),
    decreases i,
{
    if i > 0 {
        lemma_pushed_prefix(arenas, key, nodes, ids, i - 1);
        assert(signal_pushed(arenas[i - 1], arenas[i], key, nodes[i - 1], ids[i - 1]));
        assert(nodes.take(i) =~= nodes.take(i - 1).push(nodes[i - 1]));
    } else {
        assert(nodes.take(0) =~= Seq::<u64>::empty());
    }
}

/// Pushing signals one after another into a scope that has none yields the
/// indices 0, 1, 2, ... in push order, and every earlier signal keeps its
/// index and handle while later ones are pushed.
pub proof fn law_stable_identity(
    arenas: Seq<Map<u64, ScopeView>>,
    key: u64,
    nodes: Seq<u64>,
    ids: Seq<usize>,
)
    requires
        arenas.len() == nodes.len() + 1,
        ids.len() == nodes.len(),
        arenas[0].contains_key(key),
        arenas[0][key].signals.len() == 0,
        forall|k: int|
            0 <= k < nodes.len() ==> signal_pushed(
                #[trigger] arenas[k],
                arenas[k + 1],
                key,
                nodes[k],
                ids[k],
            ),
    ensures
        forall|i: int| 0 <= i < ids.len() ==> ids[i] == i,
        arenas[nodes.len() as int][key].signals == nodes,
        forall|i: int, j: int|
            0 <= j < i <= nodes.len() ==> #[trigger] arenas[i][key].signals[j] == nodes[j],
{
    assert forall|i: int| 0 <= i < ids.len() implies ids[i] == i by {
        lemma_pushed_prefix(arenas, key, nodes, ids, i);
        assert(signal_pushed(arenas[i], arenas[i + 1], key, nodes[i], ids[i]));
    }
    lemma_pushed_prefix(arenas, key, nodes, ids, nodes.len() as int);
    assert(nodes.take(nodes.len() as int) =~= nodes);
    assert forall|i: int, j: int| 0 <= j < i <= nodes.len() implies #[trigger] arenas[i][
        key
    ].signals[j] == nodes[j] by {
        lemma_pushed_prefix(arenas, key, nodes, ids, i);
    }
}

/// Allocating scope `id` under live `parent` leaves what every earlier
/// scope sees, since only the parent's child list and the new record change.
proof fn lemma_lookup_after_alloc(before: Runtime, after: Runtime, parent: Scope, id: ScopeId, ty: u64, key: u64)
    requires
        before.wf(),
        before.is_live(parent.id),
        allocated(before, after, Some(parent), id),
        key < id.key,
    ensures
        lookup_context(after.arena(), key, ty) == lookup_context(before.arena(), key, ty),
    decreases key,
{
    let a = before.arena();
    let b = after.arena();
    if a.contains_key(key) {
        assert(b.contains_key(key));
        assert(b[key].contexts == a[key].contexts && b[key].parent == a[key].parent);
        match a[key].parent {
            Some(p) => {
                if p.id.key < key {
                    lemma_lookup_after_alloc(before, after, parent, id, ty, p.id.key);
                }
            },
            None => {},
        }
    } else {
        assert(!b.contains_key(key));
    }
}

/// A scope freshly created under a live parent sees, for every context
/// key, exactly what its parent sees, and the parent and every other
/// earlier scope see what they saw before.
pub proof fn law_child_inherits_context(
    before: Runtime,
    after: Runtime,
    parent: Scope,
    id: ScopeId,
    ty: u64,
    other: u64,
)
    requires
        before.wf(),
        before.is_live(parent.id),
        allocated(before, after, Some(parent), id),
        other < id.key,
    ensures
        lookup_context(after.arena(), id.key, ty) == lookup_context(before.arena(), parent.id.key, ty),
        lookup_context(after.arena(), other, ty) == lookup_context(before.arena(), other, ty),
{
    assert(parent.id.key < id.key);
    lemma_lookup_after_alloc(before, after, parent, id, ty, parent.id.key);
    lemma_lookup_after_alloc(before, after, parent, id, ty, other);
    assert(after.arena()[id.key].contexts =~= Map::<u64, u64>::empty());
}

proof fn lemma_decimal_nonempty(n: nat)
    ensures
        decimal(n).len() >= 1,
        n >= 10 ==> decimal(n).len() >= 2,
    decreases n,
{
    if n >= 10 {
        lemma_decimal_nonempty(n / 10);
    }
}

proof fn lemma_digit_injective(d: nat, e: nat)
    requires
        d < 10,
        e < 10,
        digit_char(d) == digit_char(e),
    ensures
        d == e,
{
}

/// Different ordinals are written as different keys.
pub proof fn law_decimal_injective(n: nat, m: nat)
    requires
        decimal(n) == decimal(m),
    ensures
        n == m,
    decreases n,
{
    lemma_decimal_nonempty(n);
    lemma_decimal_nonempty(m);
    if n < 10 && m < 10 {
        assert(decimal(n)[0] == digit_char(n));
        assert(decimal(m)[0] == digit_char(m));
        lemma_digit_injective(n, m);
    } else if n >= 10 && m >= 10 {
        let (dn, dm) = (decimal(n), decimal(m));
        assert(dn.last() == digit_char(n % 10));
        assert(dm.last() == digit_char(m % 10));
        lemma_digit_injective(n % 10, m % 10);
        assert(dn.drop_last() =~= decimal(n / 10));
        assert(dm.drop_last() =~= decimal(m / 10));
        law_decimal_injective(n / 10, m / 10);
        assert(n == 10 * (n / 10) + n % 10);
        assert(m == 10 * (m / 10) + m % 10);
    } else {
        lemma_decimal_nonempty(n);
        lemma_decimal_nonempty(m);
    }
}

} // verus!
